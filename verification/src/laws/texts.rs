//! What holds of texts.

use vstd::prelude::*;

use crate::text;

verus! {

/// Whether `value` has a character that is not white space.
pub open spec fn says_something(value: Seq<char>) -> bool {
    exists|i: int| 0 <= i < value.len() && !text::is_white(#[trigger] value[i])
}

/// Whether `value` is a word: at least one character, and no white space.
pub open spec fn one_word(value: Seq<char>) -> bool {
    value.len() > 0 && forall|i: int| 0 <= i < value.len() ==> !text::is_white(#[trigger] value[i])
}

/// Whether `core` is what is left of `value` when white space is taken from both ends, and only
/// there.
pub open spec fn is_core(value: Seq<char>, core: Seq<char>, from: int, to: int) -> bool {
    &&& 0 <= from <= to <= value.len()
    &&& core == value.subrange(from, to)
    &&& forall|k: int| 0 <= k < from ==> text::is_white(#[trigger] value[k])
    &&& forall|k: int| to <= k < value.len() ==> text::is_white(#[trigger] value[k])
    &&& from < to ==> !text::is_white(value[from]) && !text::is_white(value[to - 1])
}

/// Blanks, tabs and line ends are white space. No visible character of ASCII is.
pub proof fn ascii_white_space(c: char)
    ensures
        c == ' ' || c == '\t' || c == '\n' || c == '\r' ==> text::is_white(c),
        '!' <= c <= '~' ==> !text::is_white(c),
        c as u32 == 0x3000 || c as u32 == 0xa0 || c as u32 == 0x2028 ==> text::is_white(c),
{
}

proof fn lemma_start(value: Seq<char>) -> (n: int)
    ensures
        0 <= n <= value.len(),
        text::trim_start(value) == value.skip(n),
        forall|k: int| 0 <= k < n ==> text::is_white(#[trigger] value[k]),
        n < value.len() ==> !text::is_white(value[n]),
    decreases value.len(),
{
    if value.len() > 0 && text::is_white(value[0]) {
        let rest = value.drop_first();
        let n = lemma_start(rest);
        assert(value.skip(n + 1) =~= rest.skip(n));
        assert forall|k: int| 0 <= k < n + 1 implies text::is_white(#[trigger] value[k]) by {
            if k > 0 {
                assert(rest[k - 1] == value[k]);
            }
        }
        if n < rest.len() {
            assert(rest[n] == value[n + 1]);
        }
        n + 1
    } else {
        assert(value.skip(0) =~= value);
        0
    }
}

proof fn lemma_end(value: Seq<char>) -> (n: int)
    ensures
        0 <= n <= value.len(),
        text::trim_end(value) == value.take(n),
        forall|k: int| n <= k < value.len() ==> text::is_white(#[trigger] value[k]),
        n > 0 ==> !text::is_white(value[n - 1]),
    decreases value.len(),
{
    if value.len() > 0 && text::is_white(value.last()) {
        let rest = value.drop_last();
        let n = lemma_end(rest);
        assert(value.take(n) =~= rest.take(n));
        assert forall|k: int| n <= k < value.len() implies text::is_white(#[trigger] value[k]) by {
            if k < rest.len() {
                assert(rest[k] == value[k]);
            }
        }
        n
    } else {
        assert(value.take(value.len() as int) =~= value);
        value.len() as int
    }
}

/// To trim a text takes the white space from its two ends, all of it and nothing else. A text is
/// blank just where nothing is left.
pub proof fn trimming_keeps_the_core(value: Seq<char>)
    ensures
        exists|from: int, to: int| is_core(value, text::trimmed(value), from, to),
        text::trimmed(value).len() > 0 <==> says_something(value),
{
    let from = lemma_start(value);
    let rest = value.skip(from);
    let n = lemma_end(rest);
    let to = from + n;
    assert(text::trimmed(value) =~= value.subrange(from, to));
    assert forall|k: int| to <= k < value.len() implies text::is_white(#[trigger] value[k]) by {
        assert(rest[k - from] == value[k]);
    }
    if from < to {
        assert(rest[n - 1] == value[to - 1]);
    }
    assert(is_core(value, text::trimmed(value), from, to));
}

/// There is one core of a text: a text is trimmed where it is the core.
pub proof fn the_core_is_the_trimmed_text(value: Seq<char>, core: Seq<char>, from: int, to: int)
    requires
        is_core(value, core, from, to),
    ensures
        text::trimmed(value) == core,
{
    trimming_keeps_the_core(value);
    let (a, b) = choose|a: int, b: int| is_core(value, text::trimmed(value), a, b);
    if from < to {
        assert(a <= from && from <= a) by {
            if from < a {
                assert(text::is_white(value[from]));
            }
            if a < from {
                if a < b {
                    assert(text::is_white(value[a]));
                } else {
                    assert(text::is_white(value[from]));
                }
            }
        }
        assert(b == to) by {
            if b < to {
                assert(text::is_white(value[to - 1]));
            }
            if to < b {
                assert(text::is_white(value[b - 1]));
            }
        }
    } else if a < b {
        if a < from {
            assert(text::is_white(value[a]));
        } else {
            assert(text::is_white(value[a]));
        }
    }
    assert(text::trimmed(value) =~= core);
}

proof fn lemma_words_of_start(value: Seq<char>)
    ensures
        text::words(value) == text::words(text::trim_start(value)),
{
    let n = lemma_start(value);
    let rest = value.skip(n);
    let m = lemma_start(rest);
    if m > 0 {
        assert(rest[0] == value[n]);
    }
    assert(rest.skip(0) =~= rest);
}

proof fn lemma_word_len(value: Seq<char>, n: int)
    requires
        0 <= n <= value.len(),
        forall|i: int| 0 <= i < n ==> !text::is_white(#[trigger] value[i]),
        n < value.len() ==> text::is_white(value[n]),
    ensures
        text::word_len(value) == n,
    decreases n,
{
    if n > 0 {
        let rest = value.drop_first();
        assert(!text::is_white(value[0]));
        assert forall|i: int| 0 <= i < n - 1 implies !text::is_white(#[trigger] rest[i]) by {
            assert(rest[i] == value[i + 1]);
        }
        lemma_word_len(rest, n - 1);
    }
}

proof fn lemma_no_words(value: Seq<char>)
    requires
        !says_something(value),
    ensures
        text::words(value) == Seq::<Seq<char>>::empty(),
{
    let n = lemma_start(value);
    if n < value.len() {
        assert(!text::is_white(value[n]));
    }
}

proof fn lemma_first_word(word: Seq<char>, rest: Seq<char>)
    requires
        one_word(word),
        rest.len() > 0 ==> text::is_white(rest[0]),
    ensures
        text::words(word + rest) == seq![word] + text::words(rest),
{
    let value = word + rest;
    let n = lemma_start(value);
    assert(value[0] == word[0]);
    assert(n == 0);
    assert(value.skip(0) =~= value);
    assert forall|i: int| 0 <= i < word.len() implies !text::is_white(#[trigger] value[i]) by {
        assert(value[i] == word[i]);
    }
    if rest.len() > 0 {
        assert(value[word.len() as int] == rest[0]);
    }
    lemma_word_len(value, word.len() as int);
    assert(value.take(word.len() as int) =~= word);
    assert(value.skip(word.len() as int) =~= rest);
}

/// A word is its only word, white space is between words, and the words of two texts with white
/// space between them are those of the one and then those of the other.
pub proof fn words_are_between_white_space(a: Seq<char>, c: char, b: Seq<char>)
    requires
        text::is_white(c),
    ensures
        one_word(a) ==> text::words(a) == seq![a],
        !says_something(a) ==> text::words(a) == Seq::<Seq<char>>::empty(),
        text::words(a + seq![c] + b) == text::words(a) + text::words(b),
    decreases a.len(),
{
    let whole = a + seq![c] + b;
    let nothing = Seq::<Seq<char>>::empty();
    if !says_something(a) {
        lemma_no_words(a);
    }
    if one_word(a) {
        lemma_first_word(a, Seq::empty());
        lemma_no_words(Seq::empty());
        assert(a + Seq::<char>::empty() =~= a);
        assert(seq![a] + nothing =~= seq![a]);
    }
    if a.len() == 0 {
        assert(whole =~= seq![c] + b);
        assert(whole.drop_first() =~= b);
        assert(text::trim_start(whole) == text::trim_start(b));
        lemma_words_of_start(whole);
        lemma_words_of_start(b);
        assert(nothing + text::words(b) =~= text::words(b));
    } else if text::is_white(a[0]) {
        let rest = a.drop_first();
        words_are_between_white_space(rest, c, b);
        assert(whole.drop_first() =~= rest + seq![c] + b);
        assert(text::trim_start(whole) == text::trim_start(whole.drop_first()));
        assert(text::trim_start(a) == text::trim_start(rest));
        lemma_words_of_start(whole);
        lemma_words_of_start(whole.drop_first());
        lemma_words_of_start(a);
        lemma_words_of_start(rest);
    } else {
        text::lemma_word_len_bound(a);
        let n = text::word_len(a) as int;
        let word = a.take(n);
        let rest = a.skip(n);
        assert(a =~= word + rest);
        assert forall|i: int| 0 <= i < word.len() implies !text::is_white(#[trigger] word[i]) by {
            assert(word[i] == a[i]);
        }
        assert(one_word(word));
        if rest.len() > 0 {
            assert(rest[0] == a[n]);
        }
        lemma_first_word(word, rest);
        let tail = rest + seq![c] + b;
        assert(whole =~= word + tail);
        assert(tail[0] == if rest.len() > 0 {
            rest[0]
        } else {
            c
        });
        lemma_first_word(word, tail);
        words_are_between_white_space(rest, c, b);
        assert(seq![word] + (text::words(rest) + text::words(b)) =~= seq![word] + text::words(rest)
            + text::words(b));
    }
}

/// To join texts puts the separator between each two of them and nothing else.
pub proof fn joining_puts_separators_between(
    a: Seq<Seq<char>>,
    b: Seq<Seq<char>>,
    separator: Seq<char>,
)
    requires
        a.len() > 0,
        b.len() > 0,
    ensures
        text::joined(a + b, separator) == text::joined(a, separator) + separator + text::joined(
            b,
            separator,
        ),
    decreases b.len(),
{
    let whole = a + b;
    assert(whole.last() == b.last());
    if b.len() == 1 {
        assert(whole.drop_last() =~= a);
    } else {
        joining_puts_separators_between(a, b.drop_last(), separator);
        assert(whole.drop_last() =~= a + b.drop_last());
        assert(text::joined(whole, separator) =~= text::joined(a, separator) + separator
            + text::joined(b, separator));
    }
}

/// One text is joined to itself, and no text to nothing.
pub proof fn joining_one_changes_nothing(part: Seq<char>, separator: Seq<char>)
    ensures
        text::joined(seq![part], separator) == part,
        text::joined(Seq::empty(), separator) == Seq::<char>::empty(),
{
}

/// A text holds another just where that one stands in it as a whole, with something before and
/// something after it, or nothing.
pub proof fn holding_is_standing_in_it(value: Seq<char>, needle: Seq<char>)
    ensures
        text::holds(value, needle) <==> exists|before: Seq<char>, after: Seq<char>|
            value == #[trigger] (before + needle + after),
{
    if text::holds(value, needle) {
        let i = choose|i: int| text::holds_at(value, needle, i);
        assert(value =~= value.take(i) + needle + value.skip(i + needle.len()));
    }
    if exists|before: Seq<char>, after: Seq<char>| value == #[trigger] (before + needle + after) {
        let (before, after) = choose|before: Seq<char>, after: Seq<char>|
            value == #[trigger] (before + needle + after);
        assert(value.subrange(before.len() as int, (before.len() + needle.len()) as int) =~= needle);
        assert(text::holds_at(value, needle, before.len() as int));
    }
}

proof fn lemma_first(value: Seq<char>, c: char, n: int)
    requires
        0 <= n <= value.len(),
        forall|i: int| 0 <= i < n ==> #[trigger] value[i] != c,
        n < value.len() ==> value[n] == c,
    ensures
        text::first_at(value, c) == n,
    decreases n,
{
    if n > 0 {
        let rest = value.drop_first();
        assert forall|i: int| 0 <= i < n - 1 implies #[trigger] rest[i] != c by {
            assert(rest[i] == value[i + 1]);
        }
        assert(value[0] != c);
        lemma_first(rest, c, n - 1);
    }
}

proof fn lemma_find(value: Seq<char>, c: char) -> (n: int)
    ensures
        0 <= n <= value.len(),
        forall|i: int| 0 <= i < n ==> #[trigger] value[i] != c,
        n < value.len() ==> value[n] == c,
        text::first_at(value, c) == n,
    decreases value.len(),
{
    if value.len() == 0 || value[0] == c {
        0
    } else {
        let rest = value.drop_first();
        let n = lemma_find(rest, c);
        assert forall|i: int| 0 <= i < n + 1 implies #[trigger] value[i] != c by {
            if i > 0 {
                assert(rest[i - 1] == value[i]);
            }
        }
        if n < rest.len() {
            assert(rest[n] == value[n + 1]);
        }
        n + 1
    }
}

/// A text without the separator is its only piece, and the pieces of two texts with the separator
/// between them are those of the one and then those of the other.
pub proof fn pieces_are_between_separators(a: Seq<char>, c: char, b: Seq<char>)
    ensures
        (forall|i: int| 0 <= i < a.len() ==> #[trigger] a[i] != c) ==> text::pieces(a, c) == seq![
            a,
        ],
        text::pieces(a + seq![c] + b, c) == text::pieces(a, c) + text::pieces(b, c),
    decreases a.len(),
{
    let whole = a + seq![c] + b;
    let n = lemma_find(a, c);
    if n == a.len() {
        assert forall|i: int| 0 <= i < n implies #[trigger] whole[i] != c by {
            assert(whole[i] == a[i]);
        }
        lemma_first(whole, c, n);
        assert(whole.take(n) =~= a);
        assert(whole.skip(n + 1) =~= b);
    } else {
        assert forall|i: int| 0 <= i < n implies #[trigger] whole[i] != c by {
            assert(whole[i] == a[i]);
        }
        assert(whole[n] == c);
        lemma_first(whole, c, n);
        let rest = a.skip(n + 1);
        assert(whole.take(n) =~= a.take(n));
        assert(whole.skip(n + 1) =~= rest + seq![c] + b);
        pieces_are_between_separators(rest, c, b);
        assert(seq![a.take(n)] + (text::pieces(rest, c) + text::pieces(b, c)) =~= seq![a.take(n)]
            + text::pieces(rest, c) + text::pieces(b, c));
        assert(a[n] == c);
    }
}

/// A line ends at its line end, which is not part of it, and neither is a carriage return before
/// it. What follows are further lines; after the last line end there need be none.
pub proof fn lines_end_at_line_ends(line: Seq<char>, rest: Seq<char>)
    requires
        forall|i: int| 0 <= i < line.len() ==> #[trigger] line[i] != '\n',
    ensures
        text::lines_of(Seq::empty()) == Seq::<Seq<char>>::empty(),
        line.len() > 0 ==> text::lines_of(line) == seq![line],
        line.len() == 0 || line.last() != '\r' ==> text::lines_of(line + seq!['\n'] + rest)
            == seq![line] + text::lines_of(rest),
        text::lines_of(line + seq!['\r', '\n'] + rest) == seq![line] + text::lines_of(rest),
{
    lemma_first(line, '\n', line.len() as int);
    let plain = line + seq!['\n'] + rest;
    let n = line.len() as int;
    assert forall|i: int| 0 <= i < n implies #[trigger] plain[i] != '\n' by {
        assert(plain[i] == line[i]);
    }
    lemma_first(plain, '\n', n);
    assert(plain.take(n) =~= line);
    assert(plain.skip(n + 1) =~= rest);
    let both = line + seq!['\r', '\n'] + rest;
    assert forall|i: int| 0 <= i < n + 1 implies #[trigger] both[i] != '\n' by {
        if i < n {
            assert(both[i] == line[i]);
        } else {
            assert(both[i] == '\r');
        }
    }
    assert(both[n + 1] == '\n');
    lemma_first(both, '\n', n + 1);
    assert(both.take(n + 1).drop_last() =~= line);
    assert(both.take(n + 1).last() == '\r');
    assert(both.skip(n + 2) =~= rest);
}

/// Letter case is folded one character at a time: a capital letter of ASCII becomes its small one,
/// and every other character stays.
pub proof fn folding_changes_capital_letters_alone(value: Seq<char>, i: int)
    requires
        0 <= i < value.len(),
    ensures
        text::ascii_folded(value).len() == value.len(),
        value[i] < 'A' || value[i] > 'Z' ==> text::ascii_folded(value)[i] == value[i],
        'A' <= value[i] <= 'Z' ==> text::ascii_folded(value)[i] as u32 == value[i] as u32 + 32,
        text::ascii_folded(text::ascii_folded(value)) == text::ascii_folded(value),
{
    assert(text::ascii_folded(text::ascii_folded(value)) =~= text::ascii_folded(value));
}

/// Of two texts the first difference decides which comes first, and a text comes before a longer one
/// that it starts.
pub proof fn the_first_difference_decides(
    start: Seq<char>,
    x: char,
    a: Seq<char>,
    y: char,
    b: Seq<char>,
)
    ensures
        x != y ==> (text::precedes(start + seq![x] + a, start + seq![y] + b) <==> x < y),
        text::precedes(start, start + seq![x] + a),
        !text::precedes(start + seq![x] + a, start),
        !text::precedes(start, start),
    decreases start.len(),
{
    let p = start + seq![x] + a;
    let q = start + seq![y] + b;
    if start.len() > 0 {
        let rest = start.drop_first();
        the_first_difference_decides(rest, x, a, y, b);
        assert(p.drop_first() =~= rest + seq![x] + a);
        assert(q.drop_first() =~= rest + seq![y] + b);
    } else {
        assert(p[0] == x);
        assert(q[0] == y);
    }
}

/// A number is written in the digits from zero to nine, without a zero in front, and a further digit
/// counts ten times less than the one before it.
pub proof fn numbers_are_written_in_tens(n: nat, d: nat)
    requires
        d < 10,
    ensures
        text::decimal(d).len() == 1,
        text::decimal(d)[0] as u32 == 48 + d,
        n > 0 ==> text::decimal(n * 10 + d) == text::decimal(n) + text::decimal(d),
        n > 0 ==> text::decimal(n)[0] != '0',
        text::signed_decimal(-(n as int) - 1) == seq!['-'] + text::decimal(n + 1),
        text::signed_decimal(n as int) == text::decimal(n),
    decreases n,
{
    reveal_strlit("-");
    assert("-"@ =~= seq!['-']);
    let m = n * 10 + d;
    if n > 0 {
        assert(m / 10 == n && m % 10 == d) by (nonlinear_arith)
            requires
                m == n * 10 + d,
                d < 10,
        ;
        assert(text::decimal(n).push(text::digit(d)) =~= text::decimal(n) + text::decimal(d));
        if n >= 10 {
            numbers_are_written_in_tens(n / 10, n % 10);
        }
    }
}

/// Digits are read as the number that they write, one more digit as ten times the number and the
/// digit, and a sign in front is passed over. Nothing else is a number.
pub proof fn digits_are_read_as_they_are_written(digits: Seq<char>, c: char)
    requires
        '0' <= c <= '9',
    ensures
        text::digits_value(Seq::empty()) == 0,
        text::digits_value(digits.push(c)) == text::digits_value(digits) * 10 + (c as u32 - 48),
        text::unsigned_value(digits) matches Some(n) ==> {
            let plain = if digits[0] == '+' {
                digits.skip(1)
            } else {
                digits
            };
            &&& digits.len() > 0
            &&& plain.len() > 0
            &&& n == text::digits_value(plain)
            &&& forall|i: int| 0 <= i < plain.len() ==> '0' <= #[trigger] plain[i] <= '9'
        },
        (forall|i: int| 0 <= i < digits.len() ==> '0' <= #[trigger] digits[i] <= '9')
            && digits.len() > 0 ==> text::unsigned_value(digits) == Some(
            text::digits_value(digits),
        ) && text::unsigned_value(seq!['+'] + digits) == Some(text::digits_value(digits)),
        text::usize_value(digits) matches Some(n) ==> text::unsigned_value(digits) == Some(
            n as nat,
        ),
        text::unsigned_value(digits) matches Some(n) ==> (n <= usize::MAX
            ==> text::usize_value(digits) == Some(n as usize)),
{
    assert(digits.push(c).drop_last() =~= digits);
    assert((seq!['+'] + digits).skip(1) =~= digits);
}

/// To exchange one character for another changes every one of it and nothing else.
pub proof fn characters_are_exchanged_everywhere(value: Seq<char>, from: char, to: char, i: int)
    requires
        0 <= i < value.len(),
    ensures
        text::replaced(value, seq![from], seq![to]).len() == value.len(),
        text::replaced(value, seq![from], seq![to])[i] == (if value[i] == from {
            to
        } else {
            value[i]
        }),
    decreases value.len(),
{
    let rest = value.skip(1);
    let tail = text::replaced(rest, seq![from], seq![to]);
    assert(value.take(1) =~= seq![value[0]]);
    assert(value.take(1) == seq![from] <==> value[0] == from) by {
        if value.take(1) == seq![from] {
            assert(value.take(1)[0] == seq![from][0]);
        }
    }
    if rest.len() > 0 {
        characters_are_exchanged_everywhere(rest, from, to, if i > 0 {
            i - 1
        } else {
            0
        });
        if i > 0 {
            assert(rest[i - 1] == value[i]);
        }
    } else {
        assert(tail =~= rest);
    }
    let first = if value[0] == from {
        seq![to]
    } else {
        seq![value[0]]
    };
    assert(text::replaced(value, seq![from], seq![to]) == first + tail);
}

/// What stands before the first NUL of a text is all of it where there is none.
pub proof fn nothing_counts_behind_a_nul(a: Seq<char>, b: Seq<char>)
    requires
        forall|i: int| 0 <= i < a.len() ==> #[trigger] a[i] != '\0',
    ensures
        text::before_nul(a) == a,
        text::before_nul(a + seq!['\0'] + b) == a,
{
    let whole = a + seq!['\0'] + b;
    lemma_first(a, '\0', a.len() as int);
    assert forall|i: int| 0 <= i < a.len() implies #[trigger] whole[i] != '\0' by {
        assert(whole[i] == a[i]);
    }
    assert(whole[a.len() as int] == '\0');
    lemma_first(whole, '\0', a.len() as int);
    assert(a.take(a.len() as int) =~= a);
    assert(whole.take(a.len() as int) =~= a);
}

} // verus!
