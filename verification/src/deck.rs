//! Reading a line of a netlist as its reader does: as fields with blanks between
//! them.
use crate::draft::{letters, stack_of, stacked, Sign};
use crate::lines::joined;
use crate::text::decimal;
use vstd::prelude::*;

verus! {

/// The fields of a line: what stands before, between and behind its blanks.
pub open spec fn fields(line: Seq<Sign>) -> Seq<Seq<Sign>>
    decreases line.len(),
{
    if line.len() == 0 {
        seq![Seq::empty()]
    } else {
        let before = fields(line.drop_last());
        if line.last() == Sign::Letter(' ') {
            before.push(Seq::empty())
        } else {
            before.drop_last().push(before.last().push(line.last()))
        }
    }
}

/// A stretch of a line without a blank in it.
pub open spec fn solid(word: Seq<Sign>) -> bool {
    forall|i: int| 0 <= i < word.len() ==> #[trigger] word[i] != Sign::Letter(' ')
}

/// A text without a blank in it.
pub open spec fn unspaced(s: Seq<char>) -> bool {
    forall|i: int| 0 <= i < s.len() ==> #[trigger] s[i] != ' '
}

/// Texts as stretches of a line.
pub open spec fn spelled(words: Seq<Seq<char>>) -> Seq<Seq<Sign>> {
    words.map_values(|w: Seq<char>| letters(w))
}

pub proof fn lemma_letters(s: Seq<char>)
    ensures
        letters(s).len() == s.len(),
        forall|i: int| 0 <= i < s.len() ==> #[trigger] letters(s)[i] == Sign::Letter(s[i]),
{
}

/// There is always a field.
pub proof fn lemma_fields_some(line: Seq<Sign>)
    ensures
        fields(line).len() > 0,
    decreases line.len(),
{
    if line.len() > 0 {
        lemma_fields_some(line.drop_last());
    }
}

/// A line that goes on after a blank goes on with new fields.
pub proof fn lemma_fields_after_blank(a: Seq<Sign>, b: Seq<Sign>)
    ensures
        fields(a + letters(" "@) + b) == fields(a) + fields(b),
    decreases b.len(),
{
    reveal_strlit(" ");
    let blank = letters(" "@);
    lemma_letters(" "@);
    assert(blank =~= seq![Sign::Letter(' ')]);
    let line = a + blank + b;
    lemma_fields_some(b);
    if b.len() == 0 {
        assert(line =~= a.push(Sign::Letter(' ')));
        assert(line.drop_last() =~= a);
        assert(fields(line) =~= fields(a) + fields(b));
    } else {
        let rest = b.drop_last();
        lemma_fields_after_blank(a, rest);
        lemma_fields_some(rest);
        assert(line.drop_last() =~= a + blank + rest);
        assert(line.last() == b.last());
        assert(fields(line) =~= fields(a) + fields(b));
    }
}

/// A stretch without a blank is one field.
pub proof fn lemma_fields_of_word(word: Seq<Sign>)
    requires
        solid(word),
    ensures
        fields(word) == seq![word],
    decreases word.len(),
{
    if word.len() > 0 {
        let rest = word.drop_last();
        assert forall|i: int| 0 <= i < rest.len() implies #[trigger] rest[i] != Sign::Letter(' ') by {
            assert(word[i] != Sign::Letter(' '));
        }
        lemma_fields_of_word(rest);
        let last = word.len() - 1;
        assert(word[last] != Sign::Letter(' '));
        assert(rest.push(word.last()) =~= word);
        assert(fields(word) =~= seq![word]);
    } else {
        assert(word =~= Seq::<Sign>::empty());
        assert(fields(word) =~= seq![word]);
    }
}

pub proof fn lemma_letters_add(a: Seq<char>, b: Seq<char>)
    ensures
        letters(a + b) == letters(a) + letters(b),
{
    lemma_letters(a);
    lemma_letters(b);
    lemma_letters(a + b);
    assert(letters(a + b) =~= letters(a) + letters(b));
}

pub proof fn lemma_solid_add(a: Seq<Sign>, b: Seq<Sign>)
    requires
        solid(a),
        solid(b),
    ensures
        solid(a + b),
{
    assert forall|i: int| 0 <= i < (a + b).len() implies #[trigger] (a + b)[i] != Sign::Letter(
        ' ',
    ) by {
        if i < a.len() {
            assert(a[i] != Sign::Letter(' '));
        } else {
            assert(b[i - a.len()] != Sign::Letter(' '));
        }
    }
}

pub proof fn lemma_solid_letters(s: Seq<char>)
    requires
        unspaced(s),
    ensures
        solid(letters(s)),
{
    lemma_letters(s);
    assert forall|i: int| 0 <= i < letters(s).len() implies #[trigger] letters(s)[i]
        != Sign::Letter(' ') by {
        assert(s[i] != ' ');
    }
}

pub proof fn lemma_unspaced_add(a: Seq<char>, b: Seq<char>)
    requires
        unspaced(a),
        unspaced(b),
    ensures
        unspaced(a + b),
{
    assert forall|i: int| 0 <= i < (a + b).len() implies #[trigger] (a + b)[i] != ' ' by {
        if i < a.len() {
            assert(a[i] != ' ');
        } else {
            assert(b[i - a.len()] != ' ');
        }
    }
}

/// A number in decimal holds no blank.
pub proof fn lemma_decimal_unspaced(n: nat)
    ensures
        unspaced(decimal(n)),
    decreases n,
{
    if n >= 10 {
        lemma_decimal_unspaced(n / 10);
        let before = decimal(n / 10);
        assert forall|i: int| 0 <= i < decimal(n).len() implies #[trigger] decimal(n)[i] != ' ' by {
            if i < before.len() {
                assert(before[i] != ' ');
            }
        }
    }
}

/// Words that are joined by blanks are the fields.
pub proof fn lemma_fields_of_join(words: Seq<Seq<char>>, n: int)
    requires
        0 < n <= words.len(),
        forall|i: int| 0 <= i < n ==> unspaced(#[trigger] words[i]),
    ensures
        fields(letters(joined(words, " "@, n))) == spelled(words.take(n)),
    decreases n,
{
    lemma_solid_letters(words[n - 1]);
    lemma_fields_of_word(letters(words[n - 1]));
    if n == 1 {
        assert(spelled(words.take(1)) =~= seq![letters(words[0])]);
    } else {
        lemma_fields_of_join(words, n - 1);
        let before = joined(words, " "@, n - 1);
        lemma_letters_add(before, " "@);
        lemma_letters_add(before + " "@, words[n - 1]);
        lemma_fields_after_blank(letters(before), letters(words[n - 1]));
        assert(spelled(words.take(n)) =~= spelled(words.take(n - 1)) + seq![letters(words[n - 1])]);
    }
}

/// The lines of a generated text: what stands before, between and behind its line
/// feeds.
pub open spec fn text_lines(text: Seq<Sign>) -> Seq<Seq<Sign>>
    decreases text.len(),
{
    if text.len() == 0 {
        seq![Seq::empty()]
    } else {
        let before = text_lines(text.drop_last());
        if text.last() == Sign::Letter('\n') {
            before.push(Seq::empty())
        } else {
            before.drop_last().push(before.last().push(text.last()))
        }
    }
}

/// A stretch of a text without a line feed in it.
pub open spec fn on_one_line(line: Seq<Sign>) -> bool {
    forall|i: int| 0 <= i < line.len() ==> #[trigger] line[i] != Sign::Letter('\n')
}

proof fn lemma_text_lines_some(text: Seq<Sign>)
    ensures
        text_lines(text).len() > 0,
    decreases text.len(),
{
    if text.len() > 0 {
        lemma_text_lines_some(text.drop_last());
    }
}

proof fn lemma_text_lines_behind(a: Seq<Sign>, b: Seq<Sign>)
    ensures
        text_lines(a + letters("\n"@) + b) == text_lines(a) + text_lines(b),
    decreases b.len(),
{
    reveal_strlit("\n");
    let feed = letters("\n"@);
    lemma_letters("\n"@);
    assert(feed =~= seq![Sign::Letter('\n')]);
    let text = a + feed + b;
    lemma_text_lines_some(b);
    if b.len() == 0 {
        assert(text =~= a.push(Sign::Letter('\n')));
        assert(text.drop_last() =~= a);
        assert(text_lines(text) =~= text_lines(a) + text_lines(b));
    } else {
        let rest = b.drop_last();
        lemma_text_lines_behind(a, rest);
        lemma_text_lines_some(rest);
        assert(text.drop_last() =~= a + feed + rest);
        assert(text.last() == b.last());
        assert(text_lines(text) =~= text_lines(a) + text_lines(b));
    }
}

proof fn lemma_text_line(line: Seq<Sign>)
    requires
        on_one_line(line),
    ensures
        text_lines(line) == seq![line],
    decreases line.len(),
{
    if line.len() > 0 {
        let rest = line.drop_last();
        assert forall|i: int| 0 <= i < rest.len() implies #[trigger] rest[i] != Sign::Letter(
            '\n',
        ) by {
            assert(line[i] != Sign::Letter('\n'));
        }
        lemma_text_line(rest);
        let last = line.len() - 1;
        assert(line[last] != Sign::Letter('\n'));
        assert(rest.push(line.last()) =~= line);
        assert(text_lines(line) =~= seq![line]);
    } else {
        assert(line =~= Seq::<Sign>::empty());
        assert(text_lines(line) =~= seq![line]);
    }
}

proof fn lemma_stacked_lines(lines: Seq<Seq<Sign>>, n: int)
    requires
        0 < n <= lines.len(),
        forall|i: int| 0 <= i < lines.len() ==> on_one_line(#[trigger] lines[i]),
    ensures
        text_lines(stacked(lines, n)) == lines.take(n),
    decreases n,
{
    assert(on_one_line(lines[n - 1]));
    lemma_text_line(lines[n - 1]);
    if n == 1 {
        assert(lines.take(1) =~= seq![lines[0]]);
    } else {
        lemma_stacked_lines(lines, n - 1);
        lemma_text_lines_behind(stacked(lines, n - 1), lines[n - 1]);
        assert(lines.take(n) =~= lines.take(n - 1) + seq![lines[n - 1]]);
    }
}

/// Lines that are put on top of each other are read as these lines, in order.
pub proof fn stacked_lines_are_read_back(lines: Seq<Seq<Sign>>)
    requires
        lines.len() > 0,
        forall|i: int| 0 <= i < lines.len() ==> on_one_line(#[trigger] lines[i]),
    ensures
        text_lines(stack_of(lines)) == lines,
{
    lemma_stacked_lines(lines, lines.len() as int);
    assert(lines.take(lines.len() as int) =~= lines);
}

} // verus!
