//! The table of sound classes: one line per class, three fields separated by
//! commas, the last of which is the name of the class.

use crate::text;
use vstd::prelude::*;
use vstd::string::*;

verus! {

/// Where `mark` first stands in `text`, or the length of `text` where it does
/// not stand at all.
pub open spec fn first_index(text: Seq<char>, mark: char) -> int
    decreases text.len(),
{
    if text.len() == 0 || text[0] == mark {
        0
    } else {
        1 + first_index(text.drop_first(), mark)
    }
}

/// The first line of a text, without its line feed or its carriage return and
/// line feed.
pub open spec fn first_line(text: Seq<char>) -> Seq<char> {
    let end = first_index(text, '\n');
    if end < text.len() && end > 0 && text[end - 1] == '\r' {
        text.take(end - 1)
    } else {
        text.take(end)
    }
}

/// What follows the first line of a text.
pub open spec fn after_first_line(text: Seq<char>) -> Seq<char> {
    let end = first_index(text, '\n');
    if end < text.len() {
        text.skip(end + 1)
    } else {
        Seq::empty()
    }
}

/// The lines of a text. A line feed at the very end opens no further line.
pub open spec fn lines(text: Seq<char>) -> Seq<Seq<char>>
    decreases text.len(),
    via lines_decrease
{
    if text.len() == 0 {
        Seq::empty()
    } else {
        seq![first_line(text)] + lines(after_first_line(text))
    }
}

#[via_fn]
proof fn lines_decrease(text: Seq<char>) {
    lemma_first_index(text, '\n');
}

/// The index found is within the text and no earlier place holds the mark.
proof fn lemma_first_index(text: Seq<char>, mark: char)
    ensures
        0 <= first_index(text, mark) <= text.len(),
        first_index(text, mark) < text.len() ==> text[first_index(text, mark)] == mark,
        forall|i: int| 0 <= i < first_index(text, mark) ==> #[trigger] text[i] != mark,
    decreases text.len(),
{
    if text.len() > 0 && text[0] != mark {
        let rest = text.drop_first();
        lemma_first_index(rest, mark);
        assert forall|i: int| 0 <= i < first_index(text, mark) implies #[trigger] text[i]
            != mark by {
            if i > 0 {
                assert(rest[i - 1] == text[i]);
            }
        }
    }
}

/// The index is determined by what holds at it and before it.
proof fn lemma_first_index_is(text: Seq<char>, mark: char, at: int)
    requires
        0 <= at <= text.len(),
        at < text.len() ==> text[at] == mark,
        forall|i: int| 0 <= i < at ==> #[trigger] text[i] != mark,
    ensures
        first_index(text, mark) == at,
{
    lemma_first_index(text, mark);
    let found = first_index(text, mark);
    if found < at {
        assert(text[found] != mark);
    } else if at < found {
        assert(text[at] != mark);
    }
}

/// The third field of a line: all that follows the second comma.
pub open spec fn third_field(line: Seq<char>) -> Option<Seq<char>> {
    let first = first_index(line, ',');
    if first >= line.len() {
        None
    } else {
        let rest = line.skip(first + 1);
        let second = first_index(rest, ',');
        if second >= rest.len() {
            None
        } else {
            Some(rest.skip(second + 1))
        }
    }
}

/// The class name that a line holds, if it has a third field.
pub open spec fn label_of(line: Seq<char>) -> Option<Seq<char>> {
    match third_field(line) {
        Some(field) => Some(text::unquoted(text::trimmed(field))),
        None => None,
    }
}

/// The class names of a list of lines. A line without a third field is passed
/// over.
pub open spec fn labels_of(list: Seq<Seq<char>>) -> Seq<Seq<char>>
    decreases list.len(),
{
    if list.len() == 0 {
        Seq::empty()
    } else {
        match label_of(list[0]) {
            Some(label) => seq![label] + labels_of(list.drop_first()),
            None => labels_of(list.drop_first()),
        }
    }
}

/// The class names of a table: those of all lines but the first, which holds
/// the titles.
pub open spec fn class_labels(csv: Seq<char>) -> Seq<Seq<char>> {
    if lines(csv).len() == 0 {
        Seq::empty()
    } else {
        labels_of(lines(csv).drop_first())
    }
}

/// Where `mark` first stands in `chars[lo..hi]`, or `hi`.
fn index_in(chars: &Vec<char>, mark: char, lo: usize, hi: usize) -> (at: usize)
    requires
        lo <= hi <= chars@.len(),
    ensures
        lo <= at <= hi,
        at - lo == first_index(chars@.subrange(lo as int, hi as int), mark),
        at < hi ==> chars@[at as int] == mark,
{
    let mut at: usize = lo;
    while at < hi && chars[at] != mark
        invariant
            lo <= at <= hi <= chars@.len(),
            forall|i: int| lo <= i < at ==> #[trigger] chars@[i] != mark,
        decreases hi - at,
    {
        at += 1;
    }
    proof {
        lemma_first_index_is(chars@.subrange(lo as int, hi as int), mark, at - lo);
    }
    at
}

/// The range of the class name in the line `chars[lo..hi]`.
fn label_range(chars: &Vec<char>, lo: usize, hi: usize) -> (range: Option<(usize, usize)>)
    requires
        lo <= hi <= chars@.len(),
    ensures
        match range {
            Some(r) => {
                &&& lo <= r.0 <= r.1 <= hi
                &&& label_of(chars@.subrange(lo as int, hi as int)) == Some(
                    chars@.subrange(r.0 as int, r.1 as int),
                )
            },
            None => label_of(chars@.subrange(lo as int, hi as int)) is None,
        },
{
    let ghost line = chars@.subrange(lo as int, hi as int);
    let first = index_in(chars, ',', lo, hi);
    if first == hi {
        return None;
    }
    assert(line.skip(first - lo + 1) =~= chars@.subrange(first + 1, hi as int));
    let second = index_in(chars, ',', first + 1, hi);
    if second == hi {
        return None;
    }
    assert(line.skip(first - lo + 1).skip(second - first) =~= chars@.subrange(
        second + 1,
        hi as int,
    ));
    let inner = text::trim_range(chars, second + 1, hi);
    Some(text::unquote_range(chars, inner.0, inner.1))
}

/// The class names of a table, in the order of its lines. The first line is
/// passed over, and so is every line with fewer than three fields; white space
/// around a name is taken away, then the quotation marks around it.
pub fn load_class_labels(csv_content: &str) -> (labels: Vec<String>)
    ensures
        text::texts(labels@) == class_labels(csv_content@),
{
    let chars = text::chars_of(csv_content);
    let ghost all = chars@;
    let mut labels: Vec<String> = Vec::new();
    let mut at: usize = 0;
    let mut header: bool = true;
    proof {
        assert(all.skip(0) =~= all);
    }
    while at < chars.len()
        invariant
            chars@ == all,
            all == csv_content@,
            at <= all.len(),
            header ==> at == 0 && labels@.len() == 0,
            !header ==> class_labels(all) == text::texts(labels@) + labels_of(
                lines(all.skip(at as int)),
            ),
        decreases all.len() - at,
    {
        let ghost rest = all.skip(at as int);
        let end = index_in(&chars, '\n', at, chars.len());
        assert(all.subrange(at as int, all.len() as int) =~= rest);
        let mut stop: usize = end;
        if end < chars.len() && end > at && chars[end - 1] == '\r' {
            stop = end - 1;
        }
        assert(first_line(rest) =~= all.subrange(at as int, stop as int));
        let next: usize = if end < chars.len() {
            end + 1
        } else {
            end
        };
        assert(after_first_line(rest) =~= all.skip(next as int));
        let ghost known = labels@;
        assert(lines(rest) == seq![first_line(rest)] + lines(all.skip(next as int)));
        if header {
            header = false;
            assert(rest =~= all);
            assert(lines(all).drop_first() =~= lines(all.skip(next as int)));
            assert(text::texts(labels@) + labels_of(lines(all.skip(next as int))) =~= labels_of(
                lines(all.skip(next as int)),
            ));
        } else {
            proof {
                assert(lines(rest).drop_first() =~= lines(all.skip(next as int)));
            }
            if let Some(range) = label_range(&chars, at, stop) {
                let label = csv_content.substring_char(range.0, range.1).to_owned();
                labels.push(label);
                assert(text::texts(labels@) =~= text::texts(known).push(label@));
                assert(text::texts(labels@) + labels_of(lines(all.skip(next as int))) =~= text::texts(known)
                    + labels_of(lines(rest)));
            }
        }
        at = next;
    }
    proof {
        assert(all.skip(at as int) =~= Seq::<char>::empty());
        assert(text::texts(labels@) =~= class_labels(all));
    }
    labels
}

/// A part that ends its last line splits off: the lines of what follows are
/// the lines that follow.
proof fn lemma_lines_split(head: Seq<char>, tail: Seq<char>)
    requires
        head.len() > 0 ==> head.last() == '\n',
    ensures
        lines(head + tail) == lines(head) + lines(tail),
    decreases head.len(),
{
    if head.len() == 0 {
        assert(head + tail =~= tail);
        assert(lines(head) + lines(tail) =~= lines(tail));
    } else {
        let whole = head + tail;
        lemma_first_index(head, '\n');
        let end = first_index(head, '\n');
        assert(end < head.len());
        assert forall|i: int| 0 <= i < end implies #[trigger] whole[i] != '\n' by {
            assert(whole[i] == head[i]);
        }
        lemma_first_index_is(whole, '\n', end);
        assert(first_line(whole) =~= first_line(head));
        let rest = head.skip(end + 1);
        assert(whole.skip(end + 1) =~= rest + tail);
        lemma_lines_split(rest, tail);
        assert(lines(whole) =~= seq![first_line(head)] + (lines(rest) + lines(tail)));
        assert(lines(head) =~= seq![first_line(head)] + lines(rest));
    }
}

/// The class names of two lists of lines, one after the other.
proof fn lemma_labels_split(a: Seq<Seq<char>>, b: Seq<Seq<char>>)
    ensures
        labels_of(a + b) == labels_of(a) + labels_of(b),
    decreases a.len(),
{
    if a.len() == 0 {
        assert(a + b =~= b);
        assert(labels_of(a) + labels_of(b) =~= labels_of(b));
    } else {
        lemma_labels_split(a.drop_first(), b);
        assert((a + b).drop_first() =~= a.drop_first() + b);
        assert(labels_of(a + b) =~= labels_of(a) + labels_of(b));
    }
}

/// The only line of a text.
proof fn lemma_only_line(text: Seq<char>)
    requires
        text.len() > 0,
        after_first_line(text).len() == 0,
    ensures
        lines(text) == seq![first_line(text)],
{
    reveal_with_fuel(lines, 2);
    assert(lines(text) =~= seq![first_line(text)]);
}

/// The names of a single line.
proof fn lemma_labels_of_one(line: Seq<char>)
    ensures
        labels_of(seq![line]) == match label_of(line) {
            Some(label) => seq![label],
            None => Seq::empty(),
        },
{
    reveal_with_fuel(labels_of, 2);
    assert(seq![line].drop_first() =~= Seq::<Seq<char>>::empty());
    assert(labels_of(seq![line]) =~= match label_of(line) {
        Some(label) => seq![label],
        None => Seq::empty(),
    });
}

/// A text without line feeds is one line, when a line feed ends it.
proof fn lemma_single_line(line: Seq<char>)
    requires
        !line.contains('\n'),
    ensures
        lines(line.push('\n')) == seq![first_line(line.push('\n'))],
{
    let ended = line.push('\n');
    assert forall|i: int| 0 <= i < line.len() implies #[trigger] ended[i] != '\n' by {
        assert(line.contains(line[i]));
    }
    lemma_first_index_is(ended, '\n', line.len() as int);
    assert(after_first_line(ended) =~= Seq::<char>::empty());
    lemma_only_line(ended);
}

/// The line of titles names no class: whatever it holds, the same lines below
/// it give the same names.
pub proof fn law_titles_name_no_class(titles: Seq<char>, others: Seq<char>, body: Seq<char>)
    requires
        !titles.contains('\n'),
        !others.contains('\n'),
    ensures
        class_labels(titles.push('\n') + body) == class_labels(others.push('\n') + body),
        class_labels(titles.push('\n') + body) == labels_of(lines(body)),
{
    lemma_single_line(titles);
    lemma_single_line(others);
    lemma_lines_split(titles.push('\n'), body);
    lemma_lines_split(others.push('\n'), body);
    assert(lines(titles.push('\n') + body).drop_first() =~= lines(body));
    assert(lines(others.push('\n') + body).drop_first() =~= lines(body));
}

/// A line added at the end of a table adds its name at the end of the names, or
/// nothing if it has no third field. The names before it keep their places.
pub proof fn law_line_appends_its_label(table: Seq<char>, line: Seq<char>)
    requires
        table.len() > 0,
        table.last() == '\n',
        !line.contains('\n'),
    ensures
        class_labels(table + line.push('\n')) == match label_of(first_line(line.push('\n'))) {
            Some(label) => class_labels(table).push(label),
            None => class_labels(table),
        },
{
    let added = seq![first_line(line.push('\n'))];
    lemma_single_line(line);
    lemma_lines_split(table, line.push('\n'));
    lemma_first_index(table, '\n');
    let before = lines(table);
    assert(before.len() > 0);
    assert((before + added).drop_first() =~= before.drop_first() + added);
    lemma_labels_split(before.drop_first(), added);
    lemma_labels_of_one(added[0]);
    match label_of(added[0]) {
        Some(label) => {
            assert(class_labels(table) + seq![label] =~= class_labels(table).push(label));
        },
        None => {
            assert(class_labels(table) + labels_of(added) =~= class_labels(table));
        },
    }
}

/// A mark that is not the added character is found at the same place.
proof fn lemma_first_index_push(text: Seq<char>, mark: char, added: char)
    requires
        added != mark,
    ensures
        first_index(text.push(added), mark) == if first_index(text, mark) < text.len() {
            first_index(text, mark)
        } else {
            text.len() as int + 1
        },
{
    lemma_first_index(text, mark);
    let longer = text.push(added);
    let at = if first_index(text, mark) < text.len() {
        first_index(text, mark)
    } else {
        text.len() as int + 1
    };
    assert forall|i: int| 0 <= i < at implies #[trigger] longer[i] != mark by {
        if i < text.len() {
            assert(longer[i] == text[i]);
        }
    }
    lemma_first_index_is(longer, mark, at);
}

/// A carriage return at the end of a line does not change its name.
proof fn lemma_label_without_return(line: Seq<char>)
    ensures
        label_of(line.push('\r')) == label_of(line),
{
    let longer = line.push('\r');
    lemma_first_index(line, ',');
    lemma_first_index_push(line, ',', '\r');
    let first = first_index(line, ',');
    if first < line.len() {
        let rest = line.skip(first + 1);
        assert(longer.skip(first + 1) =~= rest.push('\r'));
        lemma_first_index(rest, ',');
        lemma_first_index_push(rest, ',', '\r');
        let second = first_index(rest, ',');
        if second < rest.len() {
            let field = rest.skip(second + 1);
            assert(rest.push('\r').skip(second + 1) =~= field.push('\r'));
            text::lemma_stripped_push(field, |c: char| text::is_space(c), '\r');
        }
    }
}

/// The line feed at the end of a table is optional: with it and without it the
/// names are the same.
pub proof fn law_final_line_feed_is_optional(table: Seq<char>)
    ensures
        class_labels(table.push('\n')) == class_labels(table),
{
    lemma_lines_of_ended(table);
    let plain = lines(table);
    let ended = lines(table.push('\n'));
    if table.len() == 0 {
        assert(ended.drop_first() =~= Seq::<Seq<char>>::empty());
    } else if table.last() == '\n' {
        assert(ended.drop_first() =~= plain.drop_first() + seq![Seq::<char>::empty()]);
        lemma_labels_split(plain.drop_first(), seq![Seq::<char>::empty()]);
        lemma_labels_of_one(Seq::<char>::empty());
        assert(class_labels(table) + Seq::<Seq<char>>::empty() =~= class_labels(table));
    } else {
        lemma_same_labels(plain, ended);
    }
}

/// The lines of a text with a line feed added.
proof fn lemma_lines_of_ended(table: Seq<char>)
    ensures
        ({
            let plain = lines(table);
            let ended = lines(table.push('\n'));
            if table.len() == 0 {
                ended.len() == 1
            } else if table.last() == '\n' {
                plain.len() > 0 && ended == plain.push(Seq::empty())
            } else {
                &&& plain.len() > 0
                &&& ended.len() == plain.len()
                &&& ended.drop_last() == plain.drop_last()
                &&& ended.last() == plain.last() || plain.last() == ended.last().push('\r')
            }
        }),
    decreases table.len(),
{
    let longer = table.push('\n');
    lemma_first_index(table, '\n');
    let end = first_index(table, '\n');
    assert forall|i: int| 0 <= i < end implies #[trigger] longer[i] != '\n' by {
        assert(longer[i] == table[i]);
    }
    lemma_first_index_is(longer, '\n', end);
    if table.len() == 0 {
        assert(after_first_line(longer) =~= Seq::<char>::empty());
        lemma_only_line(longer);
    } else if end == table.len() {
        assert(table.last() != '\n');
        assert(after_first_line(longer) =~= Seq::<char>::empty());
        assert(after_first_line(table) =~= Seq::<char>::empty());
        lemma_only_line(longer);
        lemma_only_line(table);
        assert(first_line(table) =~= table);
        if table.last() == '\r' {
            assert(table =~= first_line(longer).push('\r'));
        } else {
            assert(first_line(longer) =~= table);
        }
        assert(lines(longer).drop_last() =~= lines(table).drop_last());
    } else {
        let rest = table.skip(end + 1);
        assert(longer.skip(end + 1) =~= rest.push('\n'));
        assert(first_line(longer) =~= first_line(table));
        lemma_lines_of_ended(rest);
        let head = seq![first_line(table)];
        assert(lines(longer) == head + lines(rest.push('\n')));
        assert(lines(table) == head + lines(rest));
        if rest.len() == 0 {
            assert(table.last() == table[end]);
            assert(rest.push('\n') =~= seq!['\n']);
            lemma_first_index_is(seq!['\n'], '\n', 0);
            assert(first_line(seq!['\n']) =~= Seq::<char>::empty());
            assert(after_first_line(seq!['\n']) =~= Seq::<char>::empty());
            lemma_only_line(seq!['\n']);
            assert(lines(rest) =~= Seq::<Seq<char>>::empty());
            assert(lines(longer) =~= lines(table).push(Seq::empty()));
        } else {
            assert(rest.last() == table.last());
            if rest.last() == '\n' {
                assert(lines(longer) =~= lines(table).push(Seq::empty()));
            } else {
                assert(lines(longer).drop_last() =~= head + lines(rest.push('\n')).drop_last());
                assert(lines(table).drop_last() =~= head + lines(rest).drop_last());
            }
        }
    }
}

/// Two lists that differ at most in a carriage return at the end of the last
/// line hold the same names below the first line.
proof fn lemma_same_labels(plain: Seq<Seq<char>>, ended: Seq<Seq<char>>)
    requires
        plain.len() > 0,
        ended.len() == plain.len(),
        ended.drop_last() == plain.drop_last(),
        ended.last() == plain.last() || plain.last() == ended.last().push('\r'),
    ensures
        labels_of(ended.drop_first()) == labels_of(plain.drop_first()),
{
    if plain.len() > 1 {
        let common = plain.drop_last().drop_first();
        assert(plain.drop_first() =~= common + seq![plain.last()]);
        assert(ended.drop_first() =~= common + seq![ended.last()]);
        lemma_labels_split(common, seq![plain.last()]);
        lemma_labels_split(common, seq![ended.last()]);
        lemma_label_without_return(ended.last());
        lemma_labels_of_one(plain.last());
        lemma_labels_of_one(ended.last());
    } else {
        assert(plain.drop_first() =~= ended.drop_first());
    }
}

/// No name begins or ends with a quotation mark.
pub proof fn law_labels_are_unquoted(table: Seq<char>, i: int)
    requires
        0 <= i < class_labels(table).len(),
        class_labels(table)[i].len() > 0,
    ensures
        class_labels(table)[i].first() != '"',
        class_labels(table)[i].last() != '"',
{
    lemma_label_ends(lines(table).drop_first(), i);
}

proof fn lemma_label_ends(list: Seq<Seq<char>>, i: int)
    requires
        0 <= i < labels_of(list).len(),
        labels_of(list)[i].len() > 0,
    ensures
        labels_of(list)[i].first() != '"',
        labels_of(list)[i].last() != '"',
    decreases list.len(),
{
    match label_of(list[0]) {
        Some(label) => {
            if i == 0 {
                text::lemma_stripped_ends(
                    text::trimmed(third_field(list[0])->0),
                    |c: char| c == '"',
                );
            } else {
                lemma_label_ends(list.drop_first(), i - 1);
            }
        },
        None => {
            lemma_label_ends(list.drop_first(), i);
        },
    }
}

/// The third field begins after the second comma and may hold further ones; with
/// fewer than two commas there is none.
pub proof fn law_third_field_follows_two_commas(a: Seq<char>, b: Seq<char>, c: Seq<char>)
    requires
        !a.contains(','),
        !b.contains(','),
    ensures
        third_field(a + seq![','] + b + seq![','] + c) == Some(c),
        third_field(a + seq![','] + b) is None,
        third_field(a) is None,
{
    lemma_without_mark(a, ',');
    lemma_without_mark(b, ',');
    lemma_before_mark(a, ',', b);
    lemma_before_mark(b, ',', c);
    let two = a + seq![','] + b;
    assert(two.skip(a.len() as int + 1) =~= b);
    let line = a + seq![','] + b + seq![','] + c;
    let rest = b + seq![','] + c;
    assert(line =~= a + seq![','] + rest);
    lemma_before_mark(a, ',', rest);
    assert(line.skip(a.len() as int + 1) =~= rest);
    assert(rest.skip(b.len() as int + 1) =~= c);
}

/// A mark that does not stand in a text has no place in it.
proof fn lemma_without_mark(text: Seq<char>, mark: char)
    requires
        !text.contains(mark),
    ensures
        first_index(text, mark) == text.len(),
{
    assert forall|i: int| 0 <= i < text.len() implies #[trigger] text[i] != mark by {
        assert(text.contains(text[i]));
    }
    lemma_first_index_is(text, mark, text.len() as int);
}

/// A mark is found right after a text that does not hold it.
proof fn lemma_before_mark(text: Seq<char>, mark: char, after: Seq<char>)
    requires
        !text.contains(mark),
    ensures
        first_index(text + seq![mark] + after, mark) == text.len(),
{
    let whole = text + seq![mark] + after;
    assert forall|i: int| 0 <= i < text.len() implies #[trigger] whole[i] != mark by {
        assert(text.contains(text[i]));
        assert(whole[i] == text[i]);
    }
    lemma_first_index_is(whole, mark, text.len() as int);
}

/// The label of a line, whether or not a carriage return ends it.
proof fn lemma_label_of_ended(row: Seq<char>)
    requires
        !row.contains('\n'),
    ensures
        label_of(first_line(row.push('\n'))) == label_of(row),
{
    let ended = row.push('\n');
    assert(ended =~= row + seq!['\n'] + Seq::<char>::empty());
    lemma_before_mark(row, '\n', Seq::empty());
    if row.len() > 0 && row.last() == '\r' {
        let line = row.drop_last();
        assert(first_line(ended) =~= line);
        assert(row =~= line.push('\r'));
        lemma_label_without_return(line);
    } else {
        assert(first_line(ended) =~= row);
    }
}

/// A table that holds its titles only names no class.
pub proof fn law_titles_alone_name_nothing(titles: Seq<char>)
    requires
        !titles.contains('\n'),
    ensures
        class_labels(titles.push('\n')) == Seq::<Seq<char>>::empty(),
        class_labels(Seq::empty()) == Seq::<Seq<char>>::empty(),
{
    lemma_single_line(titles);
    assert(lines(titles.push('\n')).drop_first() =~= Seq::<Seq<char>>::empty());
}

/// A row of a table adds the name that it holds after its second comma, without
/// the white space around it and the quotation marks within that; the names of
/// the rows above it stay as they are. The name may hold further commas and
/// quotation marks.
pub proof fn law_row_adds_its_name(
    table: Seq<char>,
    index: Seq<char>,
    mid: Seq<char>,
    blank_before: Seq<char>,
    quotes_before: Seq<char>,
    name: Seq<char>,
    quotes_after: Seq<char>,
    blank_after: Seq<char>,
)
    requires
        table.len() > 0,
        table.last() == '\n',
        !index.contains(',') && !index.contains('\n'),
        !mid.contains(',') && !mid.contains('\n'),
        !name.contains('\n'),
        !blank_before.contains('\n') && !blank_after.contains('\n'),
        forall|i: int| 0 <= i < blank_before.len() ==> text::is_space(#[trigger] blank_before[i]),
        forall|i: int| 0 <= i < blank_after.len() ==> text::is_space(#[trigger] blank_after[i]),
        forall|i: int| 0 <= i < quotes_before.len() ==> #[trigger] quotes_before[i] == '"',
        forall|i: int| 0 <= i < quotes_after.len() ==> #[trigger] quotes_after[i] == '"',
        name.len() > 0 ==> name.first() != '"' && name.last() != '"',
        name.len() > 0 && quotes_before.len() == 0 ==> !text::is_space(name.first()),
        name.len() > 0 && quotes_after.len() == 0 ==> !text::is_space(name.last()),
    ensures
        class_labels(
            table + (index + seq![','] + mid + seq![','] + (blank_before + (quotes_before + name
                + quotes_after) + blank_after)).push('\n'),
        ) == class_labels(table).push(name),
{
    let quoted = quotes_before + name + quotes_after;
    let field = blank_before + quoted + blank_after;
    let row = index + seq![','] + mid + seq![','] + field;
    assert forall|i: int| 0 <= i < row.len() implies #[trigger] row[i] != '\n' by {
        lemma_member(index, '\n', i);
        lemma_member(mid, '\n', i - index.len() - 1);
        lemma_member(blank_before, '\n', i - index.len() - mid.len() - 2);
        let at = i - index.len() - mid.len() - 2 - blank_before.len();
        lemma_member(name, '\n', at - quotes_before.len());
        lemma_member(blank_after, '\n', at - quoted.len());
        if 0 <= at < quoted.len() {
            assert(row[i] == quoted[at]);
        }
    }
    law_third_field_follows_two_commas(index, mid, field);
    text::law_trimming_gives_the_middle(blank_before, quoted, blank_after);
    text::law_unquoting_gives_the_middle(quotes_before, name, quotes_after);
    lemma_label_of_ended(row);
    law_line_appends_its_label(table, row);
}

/// A character that a text does not hold stands at no place of it.
proof fn lemma_member(text: Seq<char>, mark: char, i: int)
    requires
        !text.contains(mark),
    ensures
        0 <= i < text.len() ==> text[i] != mark,
{
    if 0 <= i < text.len() {
        assert(text.contains(text[i]));
    }
}

/// A row with fewer than two commas adds no name.
pub proof fn law_short_row_adds_nothing(table: Seq<char>, index: Seq<char>, rest: Seq<char>)
    requires
        table.len() > 0,
        table.last() == '\n',
        !index.contains(',') && !index.contains('\n'),
        !rest.contains(',') && !rest.contains('\n'),
    ensures
        class_labels(table + index.push('\n')) == class_labels(table),
        class_labels(table + (index + seq![','] + rest).push('\n')) == class_labels(table),
{
    let row = index + seq![','] + rest;
    assert forall|i: int| 0 <= i < row.len() implies #[trigger] row[i] != '\n' by {
        lemma_member(index, '\n', i);
        lemma_member(rest, '\n', i - index.len() - 1);
    }
    law_third_field_follows_two_commas(index, rest, Seq::empty());
    lemma_label_of_ended(index);
    lemma_label_of_ended(row);
    law_line_appends_its_label(table, index);
    law_line_appends_its_label(table, row);
}

} // verus!
