//! Text on sequences of Unicode characters: white space, words, lines, search and decimal numbers.

use vstd::prelude::*;

verus! {

/// Appending one character with `String::push`.
pub assume_specification[ std::string::String::push ](buffer: &mut String, c: char)
    ensures
        final(buffer)@ == old(buffer)@.push(c),
;

/// The characters with the Unicode `White_Space` property.
pub open spec fn is_white(c: char) -> bool {
    let n = c as u32;
    ||| 0x9 <= n <= 0xd
    ||| n == 0x20
    ||| n == 0x85
    ||| n == 0xa0
    ||| n == 0x1680
    ||| 0x2000 <= n <= 0x200a
    ||| n == 0x2028
    ||| n == 0x2029
    ||| n == 0x202f
    ||| n == 0x205f
    ||| n == 0x3000
}

pub fn is_whitespace(c: char) -> (r: bool)
    ensures
        r == is_white(c),
{
    let n: u32 = c as u32;
    (0x9 <= n && n <= 0xd) || n == 0x20 || n == 0x85 || n == 0xa0 || n == 0x1680 || (0x2000 <= n
        && n <= 0x200a) || n == 0x2028 || n == 0x2029 || n == 0x202f || n == 0x205f || n == 0x3000
}

pub fn chars_of(text: &str) -> (r: Vec<char>)
    ensures
        r@ == text@,
{
    let mut out: Vec<char> = Vec::new();
    for c in it: text.chars()
        invariant
            it.seq() == text@,
            out@ == text@.take(it.index() as int),
    {
        out.push(c);
        assert(text@.take(it.index() + 1) =~= text@.take(it.index() as int).push(c));
    }
    assert(text@.take(text@.len() as int) =~= text@);
    out
}

/// The characters `from..to` of `chars` as a string.
pub fn string_of(chars: &Vec<char>, from: usize, to: usize) -> (r: String)
    requires
        from <= to <= chars@.len(),
    ensures
        r@ == chars@.subrange(from as int, to as int),
{
    let mut out: String = String::new();
    let mut i: usize = from;
    while i < to
        invariant
            from <= i <= to <= chars@.len(),
            out@ == chars@.subrange(from as int, i as int),
        decreases to - i,
    {
        out.push(chars[i]);
        i += 1;
        assert(chars@.subrange(from as int, i as int) =~= chars@.subrange(
            from as int,
            i - 1,
        ).push(chars@[i - 1]));
    }
    out
}

pub fn same(a: &str, b: &str) -> (r: bool)
    ensures
        r == (a@ == b@),
{
    a.to_owned() == b.to_owned()
}

/// `text` without its leading white space.
pub open spec fn trim_start(text: Seq<char>) -> Seq<char>
    decreases text.len(),
{
    if text.len() > 0 && is_white(text[0]) {
        trim_start(text.drop_first())
    } else {
        text
    }
}

/// `text` without its trailing white space.
pub open spec fn trim_end(text: Seq<char>) -> Seq<char>
    decreases text.len(),
{
    if text.len() > 0 && is_white(text.last()) {
        trim_end(text.drop_last())
    } else {
        text
    }
}

/// `text` without its leading and trailing white space.
pub open spec fn trimmed(text: Seq<char>) -> Seq<char> {
    trim_end(trim_start(text))
}

pub fn trim(text: &str) -> (r: String)
    ensures
        r@ == trimmed(text@),
{
    let chars = chars_of(text);
    let n: usize = chars.len();
    let mut from: usize = 0;
    assert(chars@.skip(0) =~= chars@);
    while from < n && is_whitespace(chars[from])
        invariant
            from <= n,
            n == chars@.len(),
            trim_start(chars@) == trim_start(chars@.skip(from as int)),
        decreases n - from,
    {
        assert(chars@.skip(from as int).drop_first() =~= chars@.skip(from + 1));
        from += 1;
    }
    assert(trim_start(chars@) == chars@.subrange(from as int, n as int));
    let mut to: usize = n;
    while from < to && is_whitespace(chars[to - 1])
        invariant
            from <= to <= n,
            n == chars@.len(),
            trimmed(chars@) == trim_end(chars@.subrange(from as int, to as int)),
        decreases to - from,
    {
        assert(chars@.subrange(from as int, to as int).drop_last() =~= chars@.subrange(
            from as int,
            to - 1,
        ));
        to -= 1;
    }
    string_of(&chars, from, to)
}

/// The number of characters before the first white space.
pub open spec fn word_len(text: Seq<char>) -> nat
    decreases text.len(),
{
    if text.len() == 0 || is_white(text[0]) {
        0
    } else {
        1 + word_len(text.drop_first())
    }
}

/// The maximal runs of characters that are not white space, in order.
pub open spec fn words(text: Seq<char>) -> Seq<Seq<char>>
    decreases text.len(),
    via words_decreases
{
    let rest = trim_start(text);
    if rest.len() == 0 {
        Seq::empty()
    } else {
        seq![rest.take(word_len(rest) as int)] + words(rest.skip(word_len(rest) as int))
    }
}

#[via_fn]
proof fn words_decreases(text: Seq<char>) {
    lemma_trim_start_shrinks(text);
    lemma_word_len_bound(trim_start(text));
}

pub proof fn lemma_trim_start_shrinks(text: Seq<char>)
    ensures
        trim_start(text).len() <= text.len(),
        trim_start(text).len() > 0 ==> !is_white(trim_start(text)[0]),
        trim_start(text) == text.skip(text.len() - trim_start(text).len()),
    decreases text.len(),
{
    if text.len() > 0 && is_white(text[0]) {
        lemma_trim_start_shrinks(text.drop_first());
    }
    assert(trim_start(text) =~= text.skip(text.len() - trim_start(text).len()));
}

pub proof fn lemma_word_len_bound(text: Seq<char>)
    ensures
        word_len(text) <= text.len(),
        text.len() > 0 && !is_white(text[0]) ==> word_len(text) > 0,
        forall|i: int| 0 <= i < word_len(text) ==> !is_white(#[trigger] text[i]),
        word_len(text) < text.len() ==> is_white(text[word_len(text) as int]),
    decreases text.len(),
{
    if text.len() > 0 && !is_white(text[0]) {
        lemma_word_len_bound(text.drop_first());
        assert forall|i: int| 0 <= i < word_len(text) implies !is_white(#[trigger] text[i]) by {
            if i > 0 {
                assert(text[i] == text.drop_first()[i - 1]);
            }
        }
    }
}

proof fn lemma_word_len_at(text: Seq<char>, n: nat)
    requires
        n <= text.len(),
        forall|i: int| 0 <= i < n ==> !is_white(#[trigger] text[i]),
        n < text.len() ==> is_white(text[n as int]),
    ensures
        word_len(text) == n,
    decreases text.len(),
{
    if n > 0 {
        let rest = text.drop_first();
        assert forall|i: int| 0 <= i < n - 1 implies !is_white(#[trigger] rest[i]) by {
            assert(rest[i] == text[i + 1]);
        }
        lemma_word_len_at(rest, (n - 1) as nat);
        assert(!is_white(text[0]));
    }
}

pub fn split_whitespace(text: &str) -> (r: Vec<String>)
    ensures
        r.deep_view() == words(text@),
{
    let chars = chars_of(text);
    let n: usize = chars.len();
    let mut out: Vec<String> = Vec::new();
    let mut i: usize = 0;
    assert(chars@.skip(0) =~= chars@);
    assert(out.deep_view() + words(chars@.skip(0)) =~= words(chars@));
    while i < n
        invariant
            i <= n,
            n == chars@.len(),
            words(chars@) == out.deep_view() + words(chars@.skip(i as int)),
        decreases n - i,
    {
        let ghost rest = chars@.skip(i as int);
        if is_whitespace(chars[i]) {
            assert(rest.drop_first() =~= chars@.skip(i + 1));
            assert(words(rest) == words(rest.drop_first())) by {
                lemma_trim_start_shrinks(rest.drop_first());
            }
            i += 1;
        } else {
            let from: usize = i;
            while i < n && !is_whitespace(chars[i])
                invariant
                    from <= i <= n,
                    n == chars@.len(),
                    forall|k: int| from <= k < i ==> !is_white(#[trigger] chars@[k]),
                decreases n - i,
            {
                i += 1;
            }
            let word = string_of(&chars, from, i);
            let ghost before = out.deep_view();
            out.push(word);
            proof {
                lemma_word_len_at(rest, (i - from) as nat);
                assert(trim_start(rest) == rest);
                assert(rest.take(i - from) =~= chars@.subrange(from as int, i as int));
                assert(rest.skip(i - from) =~= chars@.skip(i as int));
                assert(out.deep_view() =~= before.push(word@));
                assert(before + (seq![word@] + words(chars@.skip(i as int))) =~= out.deep_view()
                    + words(chars@.skip(i as int)));
            }
        }
    }
    assert(chars@.skip(n as int).len() == 0);
    assert(trim_start(chars@.skip(n as int)).len() == 0);
    assert(out.deep_view() + words(chars@.skip(n as int)) =~= out.deep_view());
    out
}

/// `parts` one after the other, with `separator` between each two.
pub open spec fn joined(parts: Seq<Seq<char>>, separator: Seq<char>) -> Seq<char>
    decreases parts.len(),
{
    if parts.len() == 0 {
        Seq::empty()
    } else if parts.len() == 1 {
        parts[0]
    } else {
        joined(parts.drop_last(), separator) + separator + parts.last()
    }
}

pub fn join(parts: &Vec<String>, separator: &str) -> (r: String)
    ensures
        r@ == joined(parts.deep_view(), separator@),
{
    let mut out: String = String::new();
    let mut i: usize = 0;
    let ghost all = parts.deep_view();
    assert(all.take(0) =~= Seq::empty());
    while i < parts.len()
        invariant
            i <= parts.len(),
            all == parts.deep_view(),
            out@ == joined(all.take(i as int), separator@),
        decreases parts.len() - i,
    {
        if i > 0 {
            out.append(separator);
        }
        out.append(parts[i].as_str());
        i += 1;
        proof {
            let now = all.take(i as int);
            assert(now.drop_last() =~= all.take(i - 1));
            assert(now.last() == parts@[i - 1]@);
            if i == 1 {
                assert(out@ =~= now[0]);
            }
        }
    }
    assert(all.take(all.len() as int) =~= all);
    out
}

/// Whether `needle` stands somewhere in `text`.
pub open spec fn holds(text: Seq<char>, needle: Seq<char>) -> bool {
    exists|i: int| holds_at(text, needle, i)
}

/// Whether `needle` stands in `text` from position `i` on.
pub open spec fn holds_at(text: Seq<char>, needle: Seq<char>, i: int) -> bool {
    0 <= i <= text.len() - needle.len() && text.subrange(i, i + needle.len()) == needle
}

pub(crate) fn matches_at(text: &Vec<char>, needle: &Vec<char>, at: usize) -> (r: bool)
    requires
        at <= text@.len(),
    ensures
        r == holds_at(text@, needle@, at as int),
{
    if needle.len() > text.len() - at {
        return false;
    }
    let mut k: usize = 0;
    let end: usize = text.len();
    while k < needle.len()
        invariant
            end == text@.len(),
            k <= needle@.len() <= end - at,
            forall|j: int| 0 <= j < k ==> text@[at + j] == #[trigger] needle@[j],
        decreases needle@.len() - k,
    {
        if text[at + k] != needle[k] {
            assert(text@.subrange(at as int, at + needle@.len())[k as int] != needle@[k as int]);
            return false;
        }
        k += 1;
    }
    assert(text@.subrange(at as int, at + needle@.len()) =~= needle@);
    true
}

pub fn contains(text: &str, needle: &str) -> (r: bool)
    ensures
        r == holds(text@, needle@),
{
    let chars = chars_of(text);
    let wanted = chars_of(needle);
    let mut i: usize = 0;
    while i < chars.len()
        invariant
            i <= chars@.len(),
            chars@ == text@,
            wanted@ == needle@,
            forall|j: int| 0 <= j < i ==> !#[trigger] holds_at(text@, needle@, j),
        decreases chars@.len() - i,
    {
        if matches_at(&chars, &wanted, i) {
            return true;
        }
        i += 1;
    }
    matches_at(&chars, &wanted, i)
}

/// `text` without `prefix` where it starts with it, and else as it is.
pub fn strip_prefix(text: &str, prefix: &str) -> (r: String)
    ensures
        r@ == (if holds_at(text@, prefix@, 0) {
            text@.skip(prefix@.len() as int)
        } else {
            text@
        }),
{
    let chars = chars_of(text);
    let wanted = chars_of(prefix);
    if matches_at(&chars, &wanted, 0) {
        string_of(&chars, wanted.len(), chars.len())
    } else {
        text.to_owned()
    }
}

/// `text` with the occurrences of `from`, found from left to right, each exchanged for `to`.
pub open spec fn replaced(text: Seq<char>, from: Seq<char>, to: Seq<char>) -> Seq<char>
    decreases text.len(),
{
    if from.len() == 0 || text.len() < from.len() {
        text
    } else if text.take(from.len() as int) == from {
        to + replaced(text.skip(from.len() as int), from, to)
    } else {
        seq![text[0]] + replaced(text.skip(1), from, to)
    }
}

pub fn replace(text: &str, from: &str, to: &str) -> (r: String)
    requires
        from@.len() > 0,
    ensures
        r@ == replaced(text@, from@, to@),
{
    let chars = chars_of(text);
    let wanted = chars_of(from);
    let n: usize = chars.len();
    let mut out: String = String::new();
    let mut i: usize = 0;
    assert(chars@.skip(0) =~= chars@);
    assert(out@ + replaced(chars@, from@, to@) =~= replaced(chars@, from@, to@));
    while i < n
        invariant
            i <= n,
            n == chars@.len(),
            wanted@ == from@,
            from@.len() > 0,
            replaced(chars@, from@, to@) == out@ + replaced(chars@.skip(i as int), from@, to@),
        decreases n - i,
    {
        let ghost rest = chars@.skip(i as int);
        let ghost before = out@;
        if matches_at(&chars, &wanted, i) {
            out.append(to);
            proof {
                assert(rest.take(from@.len() as int) =~= chars@.subrange(i as int, i + from@.len()));
                assert(rest.skip(from@.len() as int) =~= chars@.skip(i + from@.len()));
                assert(before + (to@ + replaced(chars@.skip(i + from@.len()), from@, to@)) =~= out@
                    + replaced(chars@.skip(i + from@.len()), from@, to@));
            }
            i += wanted.len();
        } else {
            out.push(chars[i]);
            proof {
                assert(rest.skip(1) =~= chars@.skip(i + 1));
                if rest.len() >= from@.len() {
                    assert(rest.take(from@.len() as int) =~= chars@.subrange(
                        i as int,
                        i + from@.len(),
                    ));
                } else {
                    assert(replaced(rest.skip(1), from@, to@) == rest.skip(1));
                    assert(rest =~= seq![rest[0]] + rest.skip(1));
                }
                assert(before + (seq![rest[0]] + replaced(chars@.skip(i + 1), from@, to@)) =~= out@
                    + replaced(chars@.skip(i + 1), from@, to@));
            }
            i += 1;
        }
    }
    assert(chars@.skip(n as int).len() == 0);
    assert(out@ + chars@.skip(n as int) =~= out@);
    out
}

/// The position of the first `c`, or the length where there is none.
pub open spec fn first_at(text: Seq<char>, c: char) -> nat
    decreases text.len(),
{
    if text.len() == 0 || text[0] == c {
        0
    } else {
        1 + first_at(text.drop_first(), c)
    }
}

proof fn lemma_first_at_is(text: Seq<char>, c: char, n: nat)
    requires
        n <= text.len(),
        forall|i: int| 0 <= i < n ==> #[trigger] text[i] != c,
        n < text.len() ==> text[n as int] == c,
    ensures
        first_at(text, c) == n,
    decreases n,
{
    if n > 0 {
        let rest = text.drop_first();
        assert forall|i: int| 0 <= i < n - 1 implies #[trigger] rest[i] != c by {
            assert(rest[i] == text[i + 1]);
        }
        assert(text[0] != c);
        lemma_first_at_is(rest, c, (n - 1) as nat);
    }
}

fn find_from(chars: &Vec<char>, from: usize, c: char) -> (r: usize)
    requires
        from <= chars@.len(),
    ensures
        r == from + first_at(chars@.skip(from as int), c),
        from <= r <= chars@.len(),
{
    let mut i: usize = from;
    while i < chars.len() && chars[i] != c
        invariant
            from <= i <= chars@.len(),
            forall|k: int| from <= k < i ==> #[trigger] chars@[k] != c,
        decreases chars@.len() - i,
    {
        i += 1;
    }
    proof {
        let rest = chars@.skip(from as int);
        assert forall|k: int| 0 <= k < i - from implies #[trigger] rest[k] != c by {
            assert(rest[k] == chars@[from + k]);
        }
        lemma_first_at_is(rest, c, (i - from) as nat);
    }
    i
}

/// What stands before the first NUL of `text`: all of it where there is none.
pub open spec fn before_nul(text: Seq<char>) -> Seq<char> {
    text.take(first_at(text, '\0') as int)
}

pub fn until_nul(text: &str) -> (r: String)
    ensures
        r@ == before_nul(text@),
{
    let chars = chars_of(text);
    let end: usize = find_from(&chars, 0, '\0');
    assert(chars@.skip(0) =~= chars@);
    let out = string_of(&chars, 0, end);
    assert(out@ =~= before_nul(text@));
    out
}

/// A text without a NUL stands before its end as a whole.
pub proof fn lemma_without_nul(text: Seq<char>)
    requires
        forall|i: int| 0 <= i < text.len() ==> #[trigger] text[i] != '\0',
    ensures
        before_nul(text) == text,
{
    lemma_first_at_is(text, '\0', text.len());
    assert(text.take(text.len() as int) =~= text);
}

/// How many bytes `text` takes in UTF-8.
pub open spec fn byte_count(text: Seq<char>) -> nat {
    vstd::utf8::encode_utf8(text).len()
}

pub fn count_bytes(text: &str) -> (r: usize)
    ensures
        r == byte_count(text@),
{
    text.as_bytes().len()
}

/// The pieces of `text` between the occurrences of `c`: one more than there are occurrences.
pub open spec fn pieces(text: Seq<char>, c: char) -> Seq<Seq<char>>
    decreases text.len(),
{
    let n = first_at(text, c) as int;
    if n >= text.len() {
        seq![text]
    } else {
        seq![text.take(n)] + pieces(text.skip(n + 1), c)
    }
}

pub fn split(text: &str, c: char) -> (r: Vec<String>)
    ensures
        r.deep_view() == pieces(text@, c),
{
    let chars = chars_of(text);
    let n: usize = chars.len();
    let mut out: Vec<String> = Vec::new();
    let mut from: usize = 0;
    assert(chars@.skip(0) =~= chars@);
    assert(out.deep_view() + pieces(chars@, c) =~= pieces(chars@, c));
    loop
        invariant_except_break
            from <= n,
            pieces(chars@, c) == out.deep_view() + pieces(chars@.skip(from as int), c),
        invariant
            n == chars@.len(),
        ensures
            out.deep_view() == pieces(chars@, c),
        decreases n - from,
    {
        let ghost rest = chars@.skip(from as int);
        let ghost before = out.deep_view();
        let at: usize = find_from(&chars, from, c);
        let piece = string_of(&chars, from, at);
        out.push(piece);
        assert(out.deep_view() =~= before.push(piece@));
        if at == n {
            assert(chars@.subrange(from as int, at as int) =~= rest);
            assert(before + seq![piece@] =~= out.deep_view());
            break;
        }
        proof {
            assert(rest.take(at - from) =~= chars@.subrange(from as int, at as int));
            assert(rest.skip(at - from + 1) =~= chars@.skip(at + 1));
            assert(before + (seq![piece@] + pieces(chars@.skip(at + 1), c)) =~= out.deep_view()
                + pieces(chars@.skip(at + 1), c));
        }
        from = at + 1;
    }
    out
}

/// `line` without the carriage return at its end.
pub open spec fn strip_return(line: Seq<char>) -> Seq<char> {
    if line.len() > 0 && line.last() == '\r' {
        line.drop_last()
    } else {
        line
    }
}

/// The lines of `text`, each without its line end (a newline, or a carriage return and a newline).
pub open spec fn lines_of(text: Seq<char>) -> Seq<Seq<char>>
    decreases text.len(),
{
    let n = first_at(text, '\n') as int;
    if text.len() == 0 {
        Seq::empty()
    } else if n >= text.len() {
        seq![text]
    } else {
        seq![strip_return(text.take(n))] + lines_of(text.skip(n + 1))
    }
}

pub fn lines(text: &str) -> (r: Vec<String>)
    ensures
        r.deep_view() == lines_of(text@),
{
    let chars = chars_of(text);
    let n: usize = chars.len();
    let mut out: Vec<String> = Vec::new();
    let mut from: usize = 0;
    assert(chars@.skip(0) =~= chars@);
    assert(out.deep_view() + lines_of(chars@) =~= lines_of(chars@));
    while from < n
        invariant
            from <= n,
            n == chars@.len(),
            lines_of(chars@) == out.deep_view() + lines_of(chars@.skip(from as int)),
        decreases n - from,
    {
        let ghost rest = chars@.skip(from as int);
        let ghost before = out.deep_view();
        let at: usize = find_from(&chars, from, '\n');
        if at == n {
            let line = string_of(&chars, from, n);
            out.push(line);
            proof {
                assert(chars@.subrange(from as int, n as int) =~= rest);
                assert(out.deep_view() =~= before + seq![rest]);
                assert(chars@.skip(n as int).len() == 0);
                assert(out.deep_view() + lines_of(chars@.skip(n as int)) =~= out.deep_view());
            }
            from = n;
        } else {
            let end: usize = if at > from && chars[at - 1] == '\r' {
                at - 1
            } else {
                at
            };
            let line = string_of(&chars, from, end);
            out.push(line);
            proof {
                assert(rest.take(at - from) =~= chars@.subrange(from as int, at as int));
                assert(strip_return(rest.take(at - from)) =~= line@);
                assert(rest.skip(at - from + 1) =~= chars@.skip(at + 1));
                assert(out.deep_view() =~= before.push(line@));
                assert(before + (seq![line@] + lines_of(chars@.skip(at + 1))) =~= out.deep_view()
                    + lines_of(chars@.skip(at + 1)));
            }
            from = at + 1;
        }
    }
    assert(chars@.skip(n as int).len() == 0);
    assert(out.deep_view() + lines_of(chars@.skip(n as int)) =~= out.deep_view());
    out
}

/// The lower-case letter of an upper-case ASCII letter; every other character as it is.
pub open spec fn ascii_lower(c: char) -> char {
    if 'A' <= c <= 'Z' {
        (c as u32 + 32) as char
    } else {
        c
    }
}

/// `text` with its upper-case ASCII letters in lower case.
pub open spec fn ascii_folded(text: Seq<char>) -> Seq<char> {
    text.map_values(|c: char| ascii_lower(c))
}

/// The letter case of ASCII letters does not change how many bytes a text takes.
pub proof fn lemma_folded_bytes(text: Seq<char>)
    ensures
        byte_count(ascii_folded(text)) == byte_count(text),
    decreases text.len(),
{
    let folded = ascii_folded(text);
    if text.len() > 0 {
        lemma_folded_bytes(text.drop_first());
        assert(folded.drop_first() =~= ascii_folded(text.drop_first()));
        assert(vstd::utf8::encode_scalar(folded[0] as u32).len() == vstd::utf8::encode_scalar(
            text[0] as u32,
        ).len());
    }
}

fn lower_char(c: char) -> (r: char)
    ensures
        r == ascii_lower(c),
{
    if 'A' <= c && c <= 'Z' {
        (c as u8 + 32) as char
    } else {
        c
    }
}

pub fn to_ascii_lowercase(text: &str) -> (r: String)
    ensures
        r@ == ascii_folded(text@),
{
    let mut out: String = String::new();
    for c in it: text.chars()
        invariant
            it.seq() == text@,
            out@ == ascii_folded(text@.take(it.index() as int)),
    {
        out.push(lower_char(c));
        assert(ascii_folded(text@.take(it.index() + 1)) =~= ascii_folded(
            text@.take(it.index() as int),
        ).push(ascii_lower(c)));
    }
    assert(text@.take(text@.len() as int) =~= text@);
    out
}

/// Whether `a` stands before `b` in the order of their characters' code points, a prefix first.
pub open spec fn precedes(a: Seq<char>, b: Seq<char>) -> bool
    decreases a.len(),
{
    if b.len() == 0 {
        false
    } else if a.len() == 0 {
        true
    } else if a[0] == b[0] {
        precedes(a.drop_first(), b.drop_first())
    } else {
        a[0] < b[0]
    }
}

pub fn less(a: &str, b: &str) -> (r: bool)
    ensures
        r == precedes(a@, b@),
{
    let x = chars_of(a);
    let y = chars_of(b);
    let mut i: usize = 0;
    assert(x@.skip(0) =~= x@);
    assert(y@.skip(0) =~= y@);
    while i < x.len() && i < y.len() && x[i] == y[i]
        invariant
            i <= x@.len(),
            i <= y@.len(),
            precedes(x@, y@) == precedes(x@.skip(i as int), y@.skip(i as int)),
        decreases x@.len() - i,
    {
        assert(x@.skip(i as int).drop_first() =~= x@.skip(i + 1));
        assert(y@.skip(i as int).drop_first() =~= y@.skip(i + 1));
        i += 1;
    }
    if i == y.len() {
        false
    } else if i == x.len() {
        true
    } else {
        x[i] < y[i]
    }
}

/// The order of code points is a strict total order.
pub proof fn precedes_is_total(a: Seq<char>, b: Seq<char>)
    ensures
        !(precedes(a, b) && precedes(b, a)),
        a != b ==> precedes(a, b) || precedes(b, a),
        a == b ==> !precedes(a, b),
    decreases a.len(),
{
    if a.len() > 0 && b.len() > 0 {
        precedes_is_total(a.drop_first(), b.drop_first());
        if a[0] == b[0] && a.drop_first() == b.drop_first() {
            assert(a =~= seq![a[0]] + a.drop_first());
            assert(b =~= seq![b[0]] + b.drop_first());
        }
    } else {
        if a.len() == 0 && b.len() == 0 {
            assert(a =~= b);
        }
    }
}

/// The order of code points is transitive.
pub proof fn precedes_is_transitive(a: Seq<char>, b: Seq<char>, c: Seq<char>)
    requires
        precedes(a, b),
        precedes(b, c),
    ensures
        precedes(a, c),
    decreases a.len(),
{
    if a.len() > 0 && a[0] == b[0] && b[0] == c[0] {
        precedes_is_transitive(a.drop_first(), b.drop_first(), c.drop_first());
    }
}

/// The digit `n`, for `n` below ten.
pub open spec fn digit(n: nat) -> char {
    (48 + n) as char
}

/// `n` in decimal notation, without leading zeros.
pub open spec fn decimal(n: nat) -> Seq<char>
    decreases n,
{
    if n < 10 {
        seq![digit(n)]
    } else {
        decimal(n / 10).push(digit(n % 10))
    }
}

/// `n` in decimal notation, with a sign where it is below zero.
pub open spec fn signed_decimal(n: int) -> Seq<char> {
    if n < 0 {
        "-"@ + decimal((-n) as nat)
    } else {
        decimal(n as nat)
    }
}

pub fn signed_text(n: i64) -> (r: String)
    ensures
        r@ == signed_decimal(n as int),
{
    if n < 0 {
        let size: u64 = (-(n + 1)) as u64 + 1;
        "-".to_owned().concat(decimal_text(size).as_str())
    } else {
        decimal_text(n as u64)
    }
}

pub fn decimal_text(n: u64) -> (r: String)
    ensures
        r@ == decimal(n as nat),
    decreases n,
{
    let mut out: String = if n < 10 {
        String::new()
    } else {
        decimal_text(n / 10)
    };
    out.push((48 + (n % 10) as u8) as char);
    assert(n < 10 ==> out@ =~= seq![digit(n as nat)]);
    out
}

/// Whether every character of `text` is a decimal digit.
pub open spec fn all_digits(text: Seq<char>) -> bool {
    forall|i: int| 0 <= i < text.len() ==> '0' <= #[trigger] text[i] <= '9'
}

/// The number that the digits of `text` write.
pub open spec fn digits_value(text: Seq<char>) -> nat
    decreases text.len(),
{
    if text.len() == 0 {
        0
    } else {
        digits_value(text.drop_last()) * 10 + (text.last() as u32 - 48) as nat
    }
}

/// The number that `text` writes: digits, with a plus sign before them or without.
pub open spec fn unsigned_value(text: Seq<char>) -> Option<nat> {
    let digits = if text.len() > 0 && text[0] == '+' {
        text.skip(1)
    } else {
        text
    };
    if digits.len() > 0 && all_digits(digits) {
        Some(digits_value(digits))
    } else {
        None
    }
}

/// The number that `text` writes, where it is one and fits in `usize`.
pub open spec fn usize_value(text: Seq<char>) -> Option<usize> {
    match unsigned_value(text) {
        Some(n) => if n <= usize::MAX {
            Some(n as usize)
        } else {
            None
        },
        None => None,
    }
}

/// Why a text writes no number that fits in `usize`.
#[derive(Clone, Copy, Debug, PartialEq, Eq, Structural)]
pub enum NumberFault {
    Empty,
    InvalidDigit,
    TooLarge,
}

/// The number of digits before the first character that is none.
pub open spec fn digit_run(text: Seq<char>) -> nat
    decreases text.len(),
{
    if text.len() > 0 && '0' <= text[0] <= '9' {
        1 + digit_run(text.drop_first())
    } else {
        0
    }
}

/// What is wrong with a text that writes no `usize`: the leftmost fault counts.
pub open spec fn usize_fault(text: Seq<char>) -> NumberFault {
    let digits = if text.len() > 0 && text[0] == '+' {
        text.skip(1)
    } else {
        text
    };
    if text.len() == 0 {
        NumberFault::Empty
    } else if digits_value(digits.take(digit_run(digits) as int)) > usize::MAX {
        NumberFault::TooLarge
    } else {
        NumberFault::InvalidDigit
    }
}

proof fn lemma_digits_grow(text: Seq<char>, n: int)
    requires
        0 <= n <= text.len(),
        all_digits(text),
    ensures
        digits_value(text.take(n)) <= digits_value(text),
    decreases text.len(),
{
    if n < text.len() {
        assert(text.drop_last().take(n) =~= text.take(n));
        lemma_digits_grow(text.drop_last(), n);
    } else {
        assert(text.take(n) =~= text);
    }
}

proof fn lemma_digit_run(text: Seq<char>, n: int)
    requires
        0 <= n <= text.len(),
        all_digits(text.take(n)),
    ensures
        n <= digit_run(text) <= text.len(),
        all_digits(text.take(digit_run(text) as int)),
        n < text.len() && !('0' <= text[n] <= '9') ==> digit_run(text) == n,
        n == text.len() ==> digit_run(text) == n,
    decreases text.len(),
{
    if text.len() > 0 && '0' <= text[0] <= '9' {
        let rest = text.drop_first();
        let m = if n > 0 {
            n - 1
        } else {
            0
        };
        assert forall|i: int| 0 <= i < m implies '0' <= #[trigger] rest.take(m)[i] <= '9' by {
            assert(text.take(n)[i + 1] == rest[i]);
        }
        lemma_digit_run(rest, m);
        let run = digit_run(text) as int;
        assert forall|i: int| 0 <= i < run implies '0' <= #[trigger] text.take(run)[i] <= '9' by {
            if i > 0 {
                assert(rest.take(run - 1)[i - 1] == text[i]);
            }
        }
    } else if n > 0 {
        assert(text.take(n)[0] == text[0]);
    }
}

pub fn parse_usize(text: &str) -> (r: Result<usize, NumberFault>)
    ensures
        match r {
            Ok(n) => usize_value(text@) == Some(n),
            Err(fault) => usize_value(text@) is None && fault == usize_fault(text@),
        },
{
    let chars = chars_of(text);
    let n: usize = chars.len();
    if n == 0 {
        return Err(NumberFault::Empty);
    }
    let from: usize = if chars[0] == '+' {
        1
    } else {
        0
    };
    let ghost digits = chars@.skip(from as int);
    assert(from == 0 ==> digits =~= chars@);
    if from == n {
        assert(digits.take(digit_run(digits) as int).len() == 0);
        return Err(NumberFault::InvalidDigit);
    }
    let mut value: usize = 0;
    let mut i: usize = from;
    assert(digits.take(0).len() == 0);
    while i < n
        invariant
            from <= i <= n,
            n == chars@.len(),
            n > 0,
            chars@ == text@,
            from == (if text@[0] == '+' {
                1int
            } else {
                0int
            }),
            from == 0 ==> digits == chars@,
            digits == chars@.skip(from as int),
            all_digits(digits.take(i - from)),
            value == digits_value(digits.take(i - from)),
        decreases n - i,
    {
        let c = chars[i];
        assert(digits[i - from] == c);
        proof {
            lemma_digit_run(digits, i - from);
        }
        if c < '0' || '9' < c {
            return Err(NumberFault::InvalidDigit);
        }
        let d: usize = (c as u32 - 48) as usize;
        let ghost more = digits.take(i - from + 1);
        proof {
            assert(more.drop_last() =~= digits.take(i - from));
            assert forall|j: int| 0 <= j < more.len() implies '0' <= #[trigger] more[j] <= '9' by {
                if j < i - from {
                    assert(digits.take(i - from)[j] == more[j]);
                }
            }
        }
        if value > (usize::MAX - d) / 10 {
            proof {
                lemma_digit_run(digits, i - from + 1);
                let run = digits.take(digit_run(digits) as int);
                assert(run.take(i - from + 1) =~= more);
                lemma_digits_grow(run, i - from + 1);
                if all_digits(digits) {
                    assert(digits.take(digits.len() as int) =~= digits);
                    lemma_digit_run(digits, digits.len() as int);
                    assert(run =~= digits);
                }
            }
            return Err(NumberFault::TooLarge);
        }
        value = value * 10 + d;
        i += 1;
    }
    assert(digits.take(n - from) =~= digits);
    Ok(value)
}

/// `text` without its last character, if it has one.
pub fn without_last(text: &str) -> (r: String)
    ensures
        r@ == (if text@.len() == 0 {
            text@
        } else {
            text@.drop_last()
        }),
{
    let chars = chars_of(text);
    if chars.len() == 0 {
        return text.to_owned();
    }
    let shorter = string_of(&chars, 0, chars.len() - 1);
    assert(shorter@ =~= text@.drop_last());
    shorter
}

pub fn copy_text(value: &Option<String>) -> (r: Option<String>)
    ensures
        r.deep_view() == value.deep_view(),
{
    match value {
        Some(content) => Some(content.clone()),
        None => None,
    }
}

pub fn copy_texts(values: &Vec<String>) -> (r: Vec<String>)
    ensures
        r.deep_view() == values.deep_view(),
{
    let mut out: Vec<String> = Vec::new();
    let mut i: usize = 0;
    while i < values.len()
        invariant
            i <= values@.len(),
            out@.len() == i,
            forall|k: int| 0 <= k < i ==> (#[trigger] out@[k])@ == values@[k]@,
        decreases values@.len() - i,
    {
        out.push(values[i].clone());
        i += 1;
    }
    assert(out.deep_view() =~= values.deep_view());
    out
}

/// Ten to the power of `k`.
pub open spec fn power_of_ten(k: nat) -> nat
    decreases k,
{
    if k == 0 {
        1
    } else {
        10 * power_of_ten((k - 1) as nat)
    }
}

proof fn lemma_decimal_len(n: nat, k: nat)
    requires
        k > 0,
        n < power_of_ten(k),
    ensures
        decimal(n).len() <= k,
    decreases k,
{
    if n >= 10 {
        if k == 1 {
            assert(power_of_ten(0) == 1);
        }
        lemma_decimal_len(n / 10, (k - 1) as nat);
    }
}

/// A number of 64 bits has at most twenty decimal digits.
pub proof fn decimal_is_short(n: nat)
    requires
        n <= u64::MAX,
    ensures
        decimal(n).len() <= 20,
{
    reveal_with_fuel(power_of_ten, 21);
    assert(n < power_of_ten(20));
    lemma_decimal_len(n, 20);
}

/// What `decimal` writes is read back as the same number.
pub proof fn decimal_reads_back(n: nat)
    ensures
        decimal(n).len() > 0,
        all_digits(decimal(n)),
        digits_value(decimal(n)) == n,
        unsigned_value(decimal(n)) == Some(n),
        n <= usize::MAX ==> usize_value(decimal(n)) == Some(n as usize),
    decreases n,
{
    let text = decimal(n);
    if n >= 10 {
        decimal_reads_back(n / 10);
        assert(text.drop_last() =~= decimal(n / 10));
        assert forall|i: int| 0 <= i < text.len() implies '0' <= #[trigger] text[i] <= '9' by {
            if i < text.len() - 1 {
                assert(decimal(n / 10)[i] == text[i]);
            }
        }
    } else {
        assert(digits_value(text.drop_last()) == 0);
    }
    assert(text.last() == digit(n % 10));
    assert(digits_value(text) == digits_value(text.drop_last()) * 10 + n % 10);
    assert('0' <= text[0] <= '9');
}

/// Text that neither begins nor ends with white space is left as it is by trimming.
pub proof fn lemma_trimmed_is_same(text: Seq<char>)
    requires
        text.len() > 0 ==> !is_white(text[0]) && !is_white(text.last()),
    ensures
        trimmed(text) == text,
{
}

/// `text` in lower case by the Unicode rules of `str::to_lowercase`.
pub uninterp spec fn unicode_lower(text: Seq<char>) -> Seq<char>;

/// Calls `str::to_lowercase`; the result is a function of the text alone.
#[verifier::external_body]
pub(crate) fn to_lowercase(text: &str) -> (r: String)
    ensures
        r@ == unicode_lower(text@),
{
    text.to_lowercase()
}

/// `text` in double quotes with special characters escaped, as the `Debug` format of `str` has it.
pub uninterp spec fn quoted(text: Seq<char>) -> Seq<char>;

/// Formats `text` with the `Debug` format of `str`; the result is a function of the text alone.
#[verifier::external_body]
pub(crate) fn quote(text: &str) -> (r: String)
    ensures
        r@ == quoted(text@),
{
    format!("{:?}", text)
}

} // verus!
