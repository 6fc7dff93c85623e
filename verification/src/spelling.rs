//! What numbers and names look like as text, and what is read back from it.
use crate::hdl::port_named;
use crate::lines::{lines_cut, lines_of, without_return, words_cut, words_of};
use crate::renode::gpio_of;
use crate::text::{
    all_digits, decimal, digits_value, first_at, hexadecimal, is_ascii_digit,
    is_whitespace, last_at, lowercase, split_once, text_before, trim, trim_end, trim_start,
    unsigned,
};
use crate::validation::identifier;
use vstd::prelude::*;

verus! {

proof fn lemma_decimal_value(n: nat)
    ensures
        all_digits(decimal(n)),
        digits_value(decimal(n)) == n,
        decimal(n).len() > 0,
    decreases n,
{
    if n < 10 {
        assert(decimal(n).drop_last() =~= Seq::<char>::empty());
        assert(digits_value(decimal(n).drop_last()) == 0);
    } else {
        lemma_decimal_value(n / 10);
        let before = decimal(n / 10);
        assert(decimal(n).drop_last() =~= before);
        assert forall|i: int| 0 <= i < decimal(n).len() implies is_ascii_digit(
            #[trigger] decimal(n)[i],
        ) by {
            if i < before.len() {
                assert(is_ascii_digit(before[i]));
            }
        }
    }
}

/// A number that was written in decimal is read back as the same number.
pub proof fn numbers_are_read_back(n: nat, max: nat)
    requires
        n <= max,
    ensures
        unsigned(decimal(n), max) == Some(n),
{
    lemma_decimal_value(n);
    assert(is_ascii_digit(decimal(n)[0]));
}

/// The number that hexadecimal digits write.
pub open spec fn hex_value(s: Seq<char>) -> nat
    decreases s.len(),
{
    if s.len() == 0 {
        0
    } else {
        let c = s.last();
        hex_value(s.drop_last()) * 16 + if '0' <= c <= '9' {
            (c as nat - '0' as nat) as nat
        } else {
            (c as nat - 'a' as nat + 10) as nat
        }
    }
}

/// A number in hexadecimal digits is that number.
pub proof fn hexadecimal_digits_write_the_number(n: nat)
    ensures
        hex_value(hexadecimal(n)) == n,
    decreases n,
{
    if n < 16 {
        assert(hexadecimal(n).drop_last() =~= Seq::<char>::empty());
        assert(hex_value(hexadecimal(n).drop_last()) == 0);
    } else {
        hexadecimal_digits_write_the_number(n / 16);
        assert(hexadecimal(n).drop_last() =~= hexadecimal(n / 16));
    }
}

/// Nothing but whitespace.
pub open spec fn all_blank(s: Seq<char>) -> bool {
    forall|i: int| 0 <= i < s.len() ==> is_whitespace(#[trigger] s[i])
}

proof fn lemma_trim_start(s: Seq<char>) -> (k: int)
    ensures
        0 <= k <= s.len(),
        trim_start(s) == s.skip(k),
        all_blank(s.take(k)),
        k < s.len() ==> !is_whitespace(s[k]),
    decreases s.len(),
{
    if s.len() > 0 && is_whitespace(s[0]) {
        let rest = s.drop_first();
        let j = lemma_trim_start(rest);
        assert(rest.skip(j) =~= s.skip(j + 1));
        assert forall|i: int| 0 <= i < j + 1 implies is_whitespace(#[trigger] s.take(j + 1)[i]) by {
            if i > 0 {
                assert(is_whitespace(rest.take(j)[i - 1]));
            }
        }
        j + 1
    } else {
        assert(s.skip(0) =~= s);
        0
    }
}

proof fn lemma_trim_end(s: Seq<char>) -> (k: int)
    ensures
        0 <= k <= s.len(),
        trim_end(s) == s.take(k),
        all_blank(s.skip(k)),
        k > 0 ==> !is_whitespace(s[k - 1]),
    decreases s.len(),
{
    if s.len() > 0 && is_whitespace(s.last()) {
        let rest = s.drop_last();
        let j = lemma_trim_end(rest);
        assert(rest.take(j) =~= s.take(j));
        assert forall|i: int| 0 <= i < s.skip(j).len() implies is_whitespace(
            #[trigger] s.skip(j)[i],
        ) by {
            if i < rest.len() - j {
                assert(is_whitespace(rest.skip(j)[i]));
            }
        }
        j
    } else {
        assert(s.take(s.len() as int) =~= s);
        s.len() as int
    }
}

/// Trimming takes whitespace off both ends and nothing else: what is left begins and
/// ends with another character, and what was taken is whitespace.
pub proof fn trimming_takes_whitespace_only(s: Seq<char>)
    ensures
        exists|a: int, b: int|
            #![trigger s.take(a), s.skip(b)]
            0 <= a <= b <= s.len() && trim(s) == s.subrange(a, b) && all_blank(s.take(a))
                && all_blank(s.skip(b)),
        trim(s).len() > 0 ==> !is_whitespace(trim(s)[0]) && !is_whitespace(trim(s).last()),
{
    let a = lemma_trim_start(s);
    let inner = s.skip(a);
    let k = lemma_trim_end(inner);
    let b = a + k;
    assert(inner.take(k) =~= s.subrange(a, b));
    assert(inner.skip(k) =~= s.skip(b));
    assert(all_blank(s.take(a)) && all_blank(s.skip(b)));
    if k > 0 {
        assert(trim(s).last() == inner[k - 1]);
        assert(trim(s)[0] == s[a]);
    }
}

/// A text that neither begins nor ends with whitespace stays as it is.
pub proof fn trimmed_text_stays(s: Seq<char>)
    requires
        s.len() > 0 ==> !is_whitespace(s[0]) && !is_whitespace(s.last()),
    ensures
        trim(s) == s,
{
}

/// Lower case changes the letters from A to Z into those from a to z, and nothing
/// else.
pub proof fn lower_case_changes_letters_only(s: Seq<char>, i: int)
    requires
        0 <= i < s.len(),
    ensures
        lowercase(s).len() == s.len(),
        'A' <= s[i] <= 'Z' ==> lowercase(s)[i] as int == s[i] as int + 'a' as int - 'A' as int,
        !('A' <= s[i] <= 'Z') ==> lowercase(s)[i] == s[i],
        lowercase(lowercase(s)) == lowercase(s),
{
    assert(lowercase(lowercase(s)) =~= lowercase(s));
}

proof fn lemma_last_at(s: Seq<char>, c: char, k: int)
    requires
        0 <= k < s.len(),
        s[k] == c,
        forall|i: int| k < i < s.len() ==> #[trigger] s[i] != c,
    ensures
        last_at(s, c) == k,
    decreases s.len(),
{
    if k < s.len() - 1 {
        assert(s[s.len() - 1] != c);
        let rest = s.drop_last();
        assert forall|i: int| k < i < rest.len() implies #[trigger] rest[i] != c by {
            assert(s[i] != c);
        }
        lemma_last_at(rest, c, k);
    }
}

proof fn lemma_first_at(s: Seq<char>, c: char, k: int)
    requires
        0 <= k < s.len(),
        s[k] == c,
        forall|i: int| 0 <= i < k ==> #[trigger] s[i] != c,
    ensures
        first_at(s, c) == k,
    decreases s.len(),
{
    if k > 0 {
        assert(s[0] != c);
        let rest = s.drop_first();
        assert forall|i: int| 0 <= i < k - 1 implies #[trigger] rest[i] != c by {
            assert(s[i + 1] != c);
        }
        lemma_first_at(rest, c, k - 1);
    }
}

/// A port of a module is named by itself, and a bit of it with its number in brackets
/// behind the name.
pub proof fn port_bits_are_read_back(name: Seq<char>, bit: nat)
    requires
        identifier(name, true),
        bit <= usize::MAX,
    ensures
        port_named(name) == Ok::<(Seq<char>, Option<nat>), Seq<char>>((name, None)),
        port_named(name + seq!['['] + decimal(bit) + seq![']']) == Ok::<
            (Seq<char>, Option<nat>),
            Seq<char>,
        >((name, Some(bit))),
{
    lemma_identifier_edges(name, true);
    trimmed_text_stays(name);
    let s = name + seq!['['] + decimal(bit) + seq![']'];
    lemma_decimal_value(bit);
    numbers_are_read_back(bit, usize::MAX as nat);
    assert(s[0] == name[0]);
    assert(s.last() == ']');
    trimmed_text_stays(s);
    let k = name.len() as int;
    assert(s[k] == '[');
    assert forall|i: int| k < i < s.len() implies #[trigger] s[i] != '[' by {
        if i < s.len() - 1 {
            assert(s[i] == decimal(bit)[i - k - 1]);
            assert(is_ascii_digit(decimal(bit)[i - k - 1]));
        }
    }
    lemma_last_at(s, '[', k);
    assert(!identifier(s, true)) by {
        assert(s[k] == '[');
    }
    assert(s.take(k) =~= name);
    assert(s.subrange(k + 1, s.len() - 1) =~= decimal(bit));
}

proof fn lemma_identifier_edges(name: Seq<char>, dollar: bool)
    requires
        identifier(name, dollar),
    ensures
        !is_whitespace(name[0]),
        !is_whitespace(name.last()),
        forall|i: int| 0 <= i < name.len() ==> #[trigger] name[i] != '@' && name[i] != '[',
{
    let last = name.len() - 1;
    assert(last > 0 ==> name[last] == '_' || (dollar && name[last] == '$')
        || crate::text::is_ascii_alphanumeric(name[last]));
}

/// A pin of a board is named by its peripheral, an at sign and its number.
pub proof fn board_pins_are_read_back(port: Seq<char>, pin: nat)
    requires
        identifier(port, false),
        pin <= u32::MAX,
    ensures
        gpio_of(port + seq!['@'] + decimal(pin)) == Ok::<(Seq<char>, nat), Seq<char>>((port, pin)),
{
    lemma_identifier_edges(port, false);
    lemma_decimal_value(pin);
    numbers_are_read_back(pin, u32::MAX as nat);
    let s = port + seq!['@'] + decimal(pin);
    assert(s[0] == port[0]);
    assert(s.last() == decimal(pin).last());
    assert(is_ascii_digit(decimal(pin)[decimal(pin).len() - 1]));
    trimmed_text_stays(s);
    let k = port.len() as int;
    assert(s[k] == '@');
    assert forall|i: int| 0 <= i < k implies #[trigger] s[i] != '@' by {
        assert(s[i] == port[i]);
    }
    lemma_first_at(s, '@', k);
    assert(s.take(k) =~= port);
    assert(s.skip(k + 1) =~= decimal(pin));
    assert(split_once(s, '@') == Some((port, decimal(pin))));
}

/// Of two texts that differ first at some place, the one with the lesser character
/// there stands before the other, and a text stands before every longer one that
/// begins with it.
pub proof fn dictionary_order_goes_by_the_first_difference(a: Seq<char>, b: Seq<char>, k: int)
    requires
        0 <= k <= a.len(),
        k <= b.len(),
        a.take(k) == b.take(k),
    ensures
        k < a.len() && k < b.len() && a[k] < b[k] ==> text_before(a, b),
        k < a.len() && k < b.len() && b[k] < a[k] ==> !text_before(a, b),
        k == a.len() && k < b.len() ==> text_before(a, b),
        k < a.len() && k == b.len() ==> !text_before(a, b),
    decreases k,
{
    if k > 0 {
        let p = a.take(k);
        assert(p[0] == a[0]);
        assert(b.take(k)[0] == b[0]);
        let x = a.drop_first();
        let y = b.drop_first();
        assert forall|i: int| 0 <= i < k - 1 implies #[trigger] x.take(k - 1)[i] == y.take(k - 1)[i] by {
            assert(p[i + 1] == a[i + 1]);
            assert(b.take(k)[i + 1] == b[i + 1]);
            assert(x.take(k - 1)[i] == a[i + 1]);
            assert(y.take(k - 1)[i] == b[i + 1]);
        }
        assert(x.take(k - 1) =~= y.take(k - 1));
        dictionary_order_goes_by_the_first_difference(x, y, k - 1);
    }
}

proof fn lemma_words_prefix(a: Seq<char>, more: Seq<char>, n: int)
    requires
        0 <= n <= a.len(),
    ensures
        words_cut(a + more, n) == words_cut(a, n),
    decreases n,
{
    if n > 0 {
        lemma_words_prefix(a, more, n - 1);
        assert((a + more)[n - 1] == a[n - 1]);
    }
}

proof fn lemma_words_behind(a: Seq<char>, blank: char, b: Seq<char>, n: int)
    requires
        is_whitespace(blank),
        0 <= n <= b.len(),
    ensures
        ({
            let cut = words_cut(a + seq![blank] + b, a.len() + 1 + n);
            &&& cut.done == words_of(a) + words_cut(b, n).done
            &&& cut.open == words_cut(b, n).open
        }),
    decreases n,
{
    let s = a + seq![blank] + b;
    if n == 0 {
        assert(s =~= a + (seq![blank] + b));
        lemma_words_prefix(a, seq![blank] + b, a.len() as int);
        assert(s[a.len() as int] == blank);
        let cut = words_cut(s, a.len() as int + 1);
        assert(words_cut(s, a.len() as int) == words_cut(a, a.len() as int));
        assert(cut.done =~= words_of(a) + words_cut(b, 0).done);
        assert(cut.open =~= words_cut(b, 0).open);
    } else {
        lemma_words_behind(a, blank, b, n - 1);
        assert(s[a.len() + n] == b[n - 1]);
        let cut = words_cut(s, a.len() + 1 + n);
        assert(cut.done =~= words_of(a) + words_cut(b, n).done);
    }
}

/// The words of two texts with whitespace between them are the words of the one and
/// then those of the other.
pub proof fn words_follow_each_other(a: Seq<char>, blank: char, b: Seq<char>)
    requires
        is_whitespace(blank),
    ensures
        words_of(a + seq![blank] + b) == words_of(a) + words_of(b),
{
    lemma_words_behind(a, blank, b, b.len() as int);
    let s = a + seq![blank] + b;
    assert(s.len() == a.len() + 1 + b.len());
    assert(words_of(s) =~= words_of(a) + words_of(b));
}

proof fn lemma_one_word(word: Seq<char>, n: int)
    requires
        0 <= n <= word.len(),
        forall|i: int| 0 <= i < word.len() ==> !is_whitespace(#[trigger] word[i]),
    ensures
        words_cut(word, n).done.len() == 0,
        words_cut(word, n).open == word.take(n),
    decreases n,
{
    if n > 0 {
        lemma_one_word(word, n - 1);
        assert(!is_whitespace(word[n - 1]));
        assert(word.take(n - 1).push(word[n - 1]) =~= word.take(n));
    } else {
        assert(word.take(0) =~= Seq::<char>::empty());
    }
}

/// A text without whitespace is one word.
pub proof fn words_are_what_stands_between_whitespace(word: Seq<char>)
    requires
        word.len() > 0,
        forall|i: int| 0 <= i < word.len() ==> !is_whitespace(#[trigger] word[i]),
    ensures
        words_of(word) == seq![word],
{
    lemma_one_word(word, word.len() as int);
    assert(word.take(word.len() as int) =~= word);
    assert(words_of(word) =~= seq![word]);
}

proof fn lemma_lines_prefix(a: Seq<char>, more: Seq<char>, n: int)
    requires
        0 <= n <= a.len(),
    ensures
        lines_cut(a + more, n) == lines_cut(a, n),
    decreases n,
{
    if n > 0 {
        lemma_lines_prefix(a, more, n - 1);
        assert((a + more)[n - 1] == a[n - 1]);
    }
}

proof fn lemma_one_line(line: Seq<char>, n: int)
    requires
        0 <= n <= line.len(),
        !line.contains('\n'),
    ensures
        lines_cut(line, n).done.len() == 0,
        lines_cut(line, n).open == line.take(n),
    decreases n,
{
    if n > 0 {
        lemma_one_line(line, n - 1);
        assert(line.contains(line[n - 1]));
        assert(line.take(n - 1).push(line[n - 1]) =~= line.take(n));
    } else {
        assert(line.take(0) =~= Seq::<char>::empty());
    }
}

proof fn lemma_lines_behind(a: Seq<char>, b: Seq<char>, n: int)
    requires
        !a.contains('\n'),
        0 <= n <= b.len(),
    ensures
        ({
            let cut = lines_cut(a + seq!['\n'] + b, a.len() + 1 + n);
            &&& cut.done == seq![without_return(a)] + lines_cut(b, n).done
            &&& cut.open == lines_cut(b, n).open
        }),
    decreases n,
{
    let s = a + seq!['\n'] + b;
    if n == 0 {
        assert(s =~= a + (seq!['\n'] + b));
        lemma_lines_prefix(a, seq!['\n'] + b, a.len() as int);
        lemma_one_line(a, a.len() as int);
        assert(a.take(a.len() as int) =~= a);
        assert(s[a.len() as int] == '\n');
        let cut = lines_cut(s, a.len() as int + 1);
        assert(cut.done =~= seq![without_return(a)] + lines_cut(b, 0).done);
    } else {
        lemma_lines_behind(a, b, n - 1);
        assert(s[a.len() + n] == b[n - 1]);
        let cut = lines_cut(s, a.len() + 1 + n);
        assert(cut.done =~= seq![without_return(a)] + lines_cut(b, n).done);
    }
}

/// A line feed ends a line, and a carriage return before it belongs to neither.
pub proof fn line_feeds_end_lines(a: Seq<char>, b: Seq<char>)
    requires
        !a.contains('\n'),
        !a.contains('\r'),
    ensures
        lines_of(a + seq!['\n'] + b) == seq![a] + lines_of(b),
        lines_of(a + seq!['\r', '\n'] + b) == seq![a] + lines_of(b),
{
    lemma_lines_behind(a, b, b.len() as int);
    let s = a + seq!['\n'] + b;
    assert(a.len() > 0 ==> a.contains(a.last()));
    assert(s.len() == a.len() + 1 + b.len());
    assert(lines_of(s) =~= seq![a] + lines_of(b));
    let c = a.push('\r');
    assert forall|i: int| 0 <= i < c.len() implies c[i] != '\n' by {
        if i < a.len() {
            assert(a.contains(a[i]));
        }
    }
    lemma_lines_behind(c, b, b.len() as int);
    let t = c + seq!['\n'] + b;
    assert(t =~= a + seq!['\r', '\n'] + b);
    assert(without_return(c) =~= a);
    assert(t.len() == c.len() + 1 + b.len());
    assert(lines_of(t) =~= seq![a] + lines_of(b));
}

} // verus!
