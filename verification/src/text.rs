//! Text primitives: code-point ordering of names, white space, line
//! splitting, command-line tokens and hexadecimal colours.

use vstd::prelude::*;
use vstd::std_specs::iter::IteratorSpec;

verus! {

/// `String::push` of the standard library: the character is appended to the
/// end of the string and nothing else changes.
pub assume_specification[ String::push ](s: &mut String, c: char)
    ensures
        final(s)@ == old(s)@.push(c),
;

/// `String::pop` of the standard library: the last character is removed and
/// returned, or `None` is returned and the string stays empty.
pub assume_specification[ String::pop ](s: &mut String) -> (r: Option<char>)
    ensures
        old(s)@.len() == 0 ==> r.is_none() && final(s)@ == old(s)@,
        old(s)@.len() > 0 ==> r == Some(old(s)@.last()) && final(s)@ == old(s)@.drop_last(),
;

/// `String::clear` of the standard library: the string becomes empty.
pub assume_specification[ String::clear ](s: &mut String)
    ensures
        final(s)@ == Seq::<char>::empty(),
;

/// Strict lexicographic order on texts, code point by code point; a proper
/// prefix precedes its extensions.
pub open spec fn lex_lt(a: Seq<char>, b: Seq<char>) -> bool
    decreases a.len(),
{
    if b.len() == 0 {
        false
    } else if a.len() == 0 {
        true
    } else if a[0] != b[0] {
        (a[0] as int) < (b[0] as int)
    } else {
        lex_lt(a.drop_first(), b.drop_first())
    }
}

/// No text precedes itself.
pub proof fn lemma_lex_irreflexive(a: Seq<char>)
    ensures
        !lex_lt(a, a),
    decreases a.len(),
{
    if a.len() > 0 {
        lemma_lex_irreflexive(a.drop_first());
    }
}

/// What precedes a text precedes all that the text precedes.
pub proof fn lemma_lex_transitive(a: Seq<char>, b: Seq<char>, c: Seq<char>)
    requires
        lex_lt(a, b),
        lex_lt(b, c),
    ensures
        lex_lt(a, c),
    decreases a.len(),
{
    if a.len() > 0 && a[0] == b[0] && b[0] == c[0] {
        lemma_lex_transitive(a.drop_first(), b.drop_first(), c.drop_first());
    }
}

/// Of two different texts one precedes the other.
pub proof fn lemma_lex_total(a: Seq<char>, b: Seq<char>)
    ensures
        lex_lt(a, b) || a == b || lex_lt(b, a),
    decreases a.len(),
{
    if a.len() == 0 || b.len() == 0 {
        assert(a.len() == 0 && b.len() == 0 ==> a =~= b);
    } else if a[0] == b[0] {
        lemma_lex_total(a.drop_first(), b.drop_first());
        if a.drop_first() == b.drop_first() {
            assert(a =~= seq![a[0]] + a.drop_first());
            assert(b =~= seq![b[0]] + b.drop_first());
        }
    }
}

/// Of two texts at most one precedes the other, and no text precedes an
/// equal one.
pub proof fn lemma_lex_asymmetric(a: Seq<char>, b: Seq<char>)
    requires
        lex_lt(a, b),
    ensures
        !lex_lt(b, a),
        a != b,
{
    lemma_lex_irreflexive(a);
    if lex_lt(b, a) {
        lemma_lex_transitive(a, b, a);
    }
}

/// Whether `a` precedes `b` in the order of [`lex_lt`].
pub fn str_less(a: &str, b: &str) -> (r: bool)
    ensures
        r == lex_lt(a@, b@),
{
    let mut ia = a.chars();
    let mut ib = b.chars();
    loop
        invariant
            ia.obeys_prophetic_iter_laws(),
            ib.obeys_prophetic_iter_laws(),
            ia.decrease() is Some,
            lex_lt(a@, b@) == lex_lt(ia.remaining(), ib.remaining()),
        decreases ia.decrease()->0,
    {
        let ca = ia.next();
        let cb = ib.next();
        match (ca, cb) {
            (_, None) => {
                return false;
            },
            (None, Some(_)) => {
                return true;
            },
            (Some(x), Some(y)) => {
                if x != y {
                    return x < y;
                }
            },
        }
    }
}

/// Whether the two texts hold the same characters.
pub fn str_equal(a: &str, b: &str) -> (r: bool)
    ensures
        r == (a@ == b@),
{
    let mut ia = a.chars();
    let mut ib = b.chars();
    loop
        invariant
            ia.obeys_prophetic_iter_laws(),
            ib.obeys_prophetic_iter_laws(),
            ia.decrease() is Some,
            (a@ == b@) == (ia.remaining() == ib.remaining()),
        decreases ia.decrease()->0,
    {
        let ghost ra = ia.remaining();
        let ghost rb = ib.remaining();
        let ca = ia.next();
        let cb = ib.next();
        match (ca, cb) {
            (None, None) => {
                assert(ra =~= rb);
                return true;
            },
            (None, Some(_)) => {
                return false;
            },
            (Some(_), None) => {
                return false;
            },
            (Some(x), Some(y)) => {
                if x != y {
                    return false;
                }
                assert(ra =~= seq![x] + ra.drop_first());
                assert(rb =~= seq![y] + rb.drop_first());
            },
        }
    }
}

/// The characters of a text, in order.
pub fn to_chars(s: &str) -> (v: Vec<char>)
    ensures
        v@ == s@,
{
    let mut v: Vec<char> = Vec::new();
    for c in it: s.chars()
        invariant
            it.seq() == s@,
            v@ == s@.take(it.index() as int),
    {
        v.push(c);
    }
    v
}

/// The text made of `chars[from..to]`.
pub fn string_from_chars(chars: &Vec<char>, from: usize, to: usize) -> (s: String)
    requires
        from <= to <= chars.len(),
    ensures
        s@ == chars@.subrange(from as int, to as int),
{
    let mut s = String::new();
    let mut i: usize = from;
    while i < to
        invariant
            from <= i <= to <= chars.len(),
            s@ == chars@.subrange(from as int, i as int),
        decreases to - i,
    {
        s.push(chars[i]);
        i += 1;
    }
    s
}

/// White space, as Unicode's `White_Space` property lists it.
pub open spec fn is_space(c: char) -> bool {
    let n = c as int;
    (0x09 <= n <= 0x0d) || n == 0x20 || n == 0x85 || n == 0xa0 || n == 0x1680 || (0x2000 <= n
        <= 0x200a) || n == 0x2028 || n == 0x2029 || n == 0x202f || n == 0x205f || n == 0x3000
}

/// Whether `c` is white space.
pub fn is_whitespace(c: char) -> (r: bool)
    ensures
        r == is_space(c),
{
    ('\u{09}' <= c && c <= '\u{0d}') || c == ' ' || c == '\u{85}' || c == '\u{a0}' || c
        == '\u{1680}' || ('\u{2000}' <= c && c <= '\u{200a}') || c == '\u{2028}' || c
        == '\u{2029}' || c == '\u{202f}' || c == '\u{205f}' || c == '\u{3000}'
}

/// Number of characters before the first white space of `s`.
pub open spec fn word_len(s: Seq<char>) -> nat
    decreases s.len(),
{
    if s.len() == 0 || is_space(s[0]) {
        0
    } else {
        1 + word_len(s.drop_first())
    }
}

/// The first word lies within the text, and is not empty where the text
/// starts with a character that is not white space.
pub proof fn lemma_word_len_bound(s: Seq<char>)
    ensures
        word_len(s) <= s.len(),
        s.len() > 0 && !is_space(s[0]) ==> word_len(s) >= 1,
    decreases s.len(),
{
    if s.len() > 0 && !is_space(s[0]) {
        lemma_word_len_bound(s.drop_first());
    }
}

/// The words of a command line: its maximal runs of characters that are
/// not white space, in order.
pub open spec fn tokens(s: Seq<char>) -> Seq<Seq<char>>
    decreases s.len(),
{
    if s.len() == 0 {
        Seq::empty()
    } else if is_space(s[0]) {
        tokens(s.drop_first())
    } else {
        proof {
            lemma_word_len_bound(s);
        }
        seq![s.take(word_len(s) as int)] + tokens(s.skip(word_len(s) as int))
    }
}

/// A run of non-space characters that ends at white space or at the end of
/// the text is the word that [`word_len`] measures.
pub proof fn lemma_word_len_is(s: Seq<char>, n: int)
    requires
        0 <= n <= s.len(),
        forall|k: int| 0 <= k < n ==> !is_space(#[trigger] s[k]),
        n == s.len() || is_space(s[n]),
    ensures
        word_len(s) == n,
    decreases n,
{
    if n > 0 {
        let t = s.drop_first();
        assert forall|k: int| 0 <= k < n - 1 implies !is_space(#[trigger] t[k]) by {
            assert(t[k] == s[k + 1]);
        }
        lemma_word_len_is(t, n - 1);
    }
}

/// Splits a command line into its words.
pub fn tokenize(line: &str) -> (words: Vec<String>)
    ensures
        words.deep_view() == tokens(line@),
{
    let chars = to_chars(line);
    let n = chars.len();
    let mut words: Vec<String> = Vec::new();
    let mut i: usize = 0;
    proof {
        assert(chars@.skip(0) =~= chars@);
        assert(words.deep_view() =~= Seq::<Seq<char>>::empty());
    }
    while i < n
        invariant
            n == chars.len(),
            chars@ == line@,
            i <= n,
            tokens(line@) == words.deep_view() + tokens(chars@.skip(i as int)),
        decreases n - i,
    {
        let ghost rest = chars@.skip(i as int);
        if is_whitespace(chars[i]) {
            proof {
                assert(rest.drop_first() =~= chars@.skip(i + 1));
            }
            i += 1;
        } else {
            let start = i;
            while i < n && !is_whitespace(chars[i])
                invariant
                    n == chars.len(),
                    start <= i <= n,
                    forall|k: int| start <= k < i ==> !is_space(#[trigger] chars@[k]),
                decreases n - i,
            {
                i += 1;
            }
            let word = string_from_chars(&chars, start, i);
            proof {
                let len = i - start;
                assert forall|k: int| 0 <= k < len implies !is_space(#[trigger] rest[k]) by {
                    assert(rest[k] == chars@[start + k]);
                }
                lemma_word_len_is(rest, len);
                assert(rest.take(len) =~= chars@.subrange(start as int, i as int));
                assert(rest.skip(len) =~= chars@.skip(i as int));
            }
            let ghost before = words.deep_view();
            words.push(word);
            proof {
                assert(words.deep_view() =~= before.push(chars@.subrange(start as int, i as int)));
                assert(before + (seq![rest.take(i - start)] + tokens(chars@.skip(i as int)))
                    =~= before.push(rest.take(i - start)) + tokens(chars@.skip(i as int)));
            }
        }
    }
    proof {
        assert(chars@.skip(n as int).len() == 0);
        assert(words.deep_view() + Seq::<Seq<char>>::empty() =~= words.deep_view());
    }
    words
}


/// Number of characters before the first line break of `s`.
pub open spec fn line_len(s: Seq<char>) -> nat
    decreases s.len(),
{
    if s.len() == 0 || s[0] == '\n' {
        0
    } else {
        1 + line_len(s.drop_first())
    }
}

/// A run without line breaks that ends at a line break or at the end of the
/// text is the line that [`line_len`] measures.
pub proof fn lemma_line_len_is(s: Seq<char>, n: int)
    requires
        0 <= n <= s.len(),
        forall|k: int| 0 <= k < n ==> #[trigger] s[k] != '\n',
        n == s.len() || s[n] == '\n',
    ensures
        line_len(s) == n,
    decreases n,
{
    if n > 0 {
        let t = s.drop_first();
        assert forall|k: int| 0 <= k < n - 1 implies #[trigger] t[k] != '\n' by {
            assert(t[k] == s[k + 1]);
        }
        lemma_line_len_is(t, n - 1);
    }
}

/// The lines of a text. Every line break ends a line; what follows the last
/// line break is a line of its own unless it is empty. The empty text has no
/// line, and no line holds a line break.
pub open spec fn lines(s: Seq<char>) -> Seq<Seq<char>>
    decreases s.len(),
{
    if s.len() == 0 {
        Seq::empty()
    } else {
        let n = line_len(s) as int;
        if n >= s.len() {
            seq![s]
        } else {
            seq![s.take(n)] + lines(s.skip(n + 1))
        }
    }
}

/// Splits a text into its lines.
pub fn split_lines(text: &str) -> (out: Vec<String>)
    ensures
        out.deep_view() == lines(text@),
{
    let chars = to_chars(text);
    let n = chars.len();
    let mut out: Vec<String> = Vec::new();
    let mut i: usize = 0;
    proof {
        assert(chars@.skip(0) =~= chars@);
        assert(out.deep_view() =~= Seq::<Seq<char>>::empty());
    }
    while i < n
        invariant
            n == chars.len(),
            chars@ == text@,
            i <= n,
            lines(text@) == out.deep_view() + lines(chars@.skip(i as int)),
        decreases n - i,
    {
        let ghost rest = chars@.skip(i as int);
        let start = i;
        while i < n && chars[i] != '\n'
            invariant
                n == chars.len(),
                start <= i <= n,
                forall|k: int| start <= k < i ==> #[trigger] chars@[k] != '\n',
            decreases n - i,
        {
            i += 1;
        }
        let line = string_from_chars(&chars, start, i);
        let ghost before = out.deep_view();
        let ghost len = i - start;
        proof {
            assert forall|k: int| 0 <= k < len implies #[trigger] rest[k] != '\n' by {
                assert(rest[k] == chars@[start + k]);
            }
            lemma_line_len_is(rest, len);
            assert(rest.take(len) =~= chars@.subrange(start as int, i as int));
        }
        out.push(line);
        proof {
            assert(out.deep_view() =~= before.push(rest.take(len)));
        }
        if i < n {
            i += 1;
            proof {
                assert(rest.skip(len + 1) =~= chars@.skip(i as int));
                assert(before + (seq![rest.take(len)] + lines(chars@.skip(i as int)))
                    =~= before.push(rest.take(len)) + lines(chars@.skip(i as int)));
            }
        } else {
            proof {
                assert(rest.take(len) =~= rest);
                assert(chars@.skip(i as int).len() == 0);
                assert(before + seq![rest] =~= before.push(rest) + lines(
                    chars@.skip(i as int),
                ));
            }
        }
    }
    proof {
        assert(chars@.skip(n as int).len() == 0);
        assert(out.deep_view() + Seq::<Seq<char>>::empty() =~= out.deep_view());
    }
    out
}

/// The words joined by single spaces.
pub open spec fn join_words(words: Seq<Seq<char>>) -> Seq<char>
    decreases words.len(),
{
    if words.len() == 0 {
        Seq::empty()
    } else if words.len() == 1 {
        words[0]
    } else {
        join_words(words.drop_last()) + seq![' '] + words.last()
    }
}

/// Joins `words[from..]` with single spaces.
pub fn join_from(words: &Vec<String>, from: usize) -> (out: String)
    requires
        from <= words.len(),
    ensures
        out@ == join_words(words.deep_view().skip(from as int)),
{
    let mut out = String::new();
    let mut i: usize = from;
    let ghost all = words.deep_view();
    proof {
        assert(all.subrange(from as int, from as int) =~= Seq::<Seq<char>>::empty());
    }
    while i < words.len()
        invariant
            from <= i <= words.len(),
            all == words.deep_view(),
            out@ == join_words(all.subrange(from as int, i as int)),
        decreases words.len() - i,
    {
        let ghost prev = all.subrange(from as int, i as int);
        let ghost next = all.subrange(from as int, i + 1);
        proof {
            assert(next.drop_last() =~= prev);
            assert(next.last() == words@[i as int]@);
        }
        if i > from {
            out.push(' ');
        }
        out.append(words[i].as_str());
        proof {
            if i == from {
                assert(out@ =~= next[0]);
            } else {
                assert(out@ =~= join_words(prev) + seq![' '] + next.last());
            }
        }
        i += 1;
    }
    proof {
        assert(all.subrange(from as int, words.len() as int) =~= all.skip(from as int));
    }
    out
}


/// `s` without its leading white space.
pub open spec fn trim_start(s: Seq<char>) -> Seq<char>
    decreases s.len(),
{
    if s.len() > 0 && is_space(s[0]) {
        trim_start(s.drop_first())
    } else {
        s
    }
}

/// `s` without its trailing white space.
pub open spec fn trim_end(s: Seq<char>) -> Seq<char>
    decreases s.len(),
{
    if s.len() > 0 && is_space(s.last()) {
        trim_end(s.drop_last())
    } else {
        s
    }
}

/// `s` without the white space at either end.
pub open spec fn trimmed(s: Seq<char>) -> Seq<char> {
    trim_end(trim_start(s))
}

proof fn lemma_trim_start_is(s: Seq<char>, a: int)
    requires
        0 <= a <= s.len(),
        forall|k: int| 0 <= k < a ==> is_space(#[trigger] s[k]),
        a == s.len() || !is_space(s[a]),
    ensures
        trim_start(s) == s.skip(a),
    decreases a,
{
    if a > 0 {
        let t = s.drop_first();
        assert forall|k: int| 0 <= k < a - 1 implies is_space(#[trigger] t[k]) by {
            assert(t[k] == s[k + 1]);
        }
        lemma_trim_start_is(t, a - 1);
        assert(t.skip(a - 1) =~= s.skip(a));
    } else {
        assert(s.skip(0) =~= s);
    }
}

proof fn lemma_trim_end_is(s: Seq<char>, b: int)
    requires
        0 <= b <= s.len(),
        forall|k: int| b <= k < s.len() ==> is_space(#[trigger] s[k]),
        b == 0 || !is_space(s[b - 1]),
    ensures
        trim_end(s) == s.take(b),
    decreases s.len() - b,
{
    if b < s.len() {
        let t = s.drop_last();
        lemma_trim_end_is(t, b);
        assert(t.take(b) =~= s.take(b));
    } else {
        assert(s.take(b) =~= s);
    }
}

/// The text without the white space at either end.
pub fn trim(text: &str) -> (out: String)
    ensures
        out@ == trimmed(text@),
{
    let chars = to_chars(text);
    let n = chars.len();
    let mut a: usize = 0;
    while a < n && is_whitespace(chars[a])
        invariant
            n == chars.len(),
            a <= n,
            forall|k: int| 0 <= k < a ==> is_space(#[trigger] chars@[k]),
        decreases n - a,
    {
        a += 1;
    }
    let mut b: usize = n;
    while b > a && is_whitespace(chars[b - 1])
        invariant
            n == chars.len(),
            a <= b <= n,
            forall|k: int| b <= k < n ==> is_space(#[trigger] chars@[k]),
        decreases b,
    {
        b -= 1;
    }
    proof {
        lemma_trim_start_is(chars@, a as int);
        let rest = chars@.skip(a as int);
        assert forall|k: int| b - a <= k < rest.len() implies is_space(#[trigger] rest[k]) by {
            assert(rest[k] == chars@[a + k]);
        }
        lemma_trim_end_is(rest, b - a);
        assert(rest.take(b - a) =~= chars@.subrange(a as int, b as int));
    }
    string_from_chars(&chars, a, b)
}

/// The value of a hexadecimal digit, in either case.
pub open spec fn hex_digit(c: char) -> Option<nat> {
    let n = c as int;
    if '0' as int <= n <= '9' as int {
        Some((n - '0' as int) as nat)
    } else if 'a' as int <= n <= 'f' as int {
        Some((n - 'a' as int + 10) as nat)
    } else if 'A' as int <= n <= 'F' as int {
        Some((n - 'A' as int + 10) as nat)
    } else {
        None
    }
}

/// The number that a non-empty run of hexadecimal digits writes, most
/// significant digit first; `None` for any other text.
pub open spec fn hex_number(s: Seq<char>) -> Option<nat>
    decreases s.len(),
{
    if s.len() == 0 {
        None
    } else if s.len() == 1 {
        hex_digit(s[0])
    } else {
        match (hex_number(s.drop_last()), hex_digit(s.last())) {
            (Some(high), Some(low)) => Some(16 * high + low),
            _ => None,
        }
    }
}

/// `s` without any leading repetitions of `0x`.
pub open spec fn strip_hex_prefix(s: Seq<char>) -> Seq<char>
    decreases s.len(),
{
    if s.len() >= 2 && s[0] == '0' && s[1] == 'x' {
        strip_hex_prefix(s.skip(2))
    } else {
        s
    }
}

/// The colour that a command-line argument names: after any `0x` prefixes
/// and one optional `+`, hexadecimal digits whose number fits in 32 bits.
pub open spec fn color_of(s: Seq<char>) -> Option<u32> {
    let body = strip_hex_prefix(s);
    let digits = if body.len() > 0 && body[0] == '+' {
        body.drop_first()
    } else {
        body
    };
    match hex_number(digits) {
        Some(v) => if v <= u32::MAX {
            Some(v as u32)
        } else {
            None
        },
        None => None,
    }
}

/// A number written in hexadecimal is at least the number that any
/// non-empty prefix of it writes, and every such prefix is a number.
proof fn lemma_hex_prefix(s: Seq<char>, k: int)
    requires
        1 <= k <= s.len(),
        hex_number(s) is Some,
    ensures
        hex_number(s.take(k)) is Some,
        hex_number(s.take(k))->0 <= hex_number(s)->0,
    decreases s.len(),
{
    if k == s.len() {
        assert(s.take(k) =~= s);
    } else {
        lemma_hex_prefix(s.drop_last(), k);
        assert(s.drop_last().take(k) =~= s.take(k));
    }
}

fn hex_value(c: char) -> (r: Option<u32>)
    ensures
        match r {
            Some(d) => hex_digit(c) == Some(d as nat) && d < 16,
            None => hex_digit(c) is None,
        },
{
    if '0' <= c && c <= '9' {
        Some(c as u32 - '0' as u32)
    } else if 'a' <= c && c <= 'f' {
        Some(c as u32 - 'a' as u32 + 10)
    } else if 'A' <= c && c <= 'F' {
        Some(c as u32 - 'A' as u32 + 10)
    } else {
        None
    }
}

/// Reads a colour from a command-line argument.
pub fn parse_color(arg: &str) -> (r: Option<u32>)
    ensures
        r == color_of(arg@),
{
    let chars = to_chars(arg);
    let n = chars.len();
    let mut start: usize = 0;
    proof {
        assert(chars@.skip(0) =~= chars@);
    }
    while n - start >= 2 && chars[start] == '0' && chars[start + 1] == 'x'
        invariant
            n == chars.len(),
            start <= n,
            strip_hex_prefix(chars@) == strip_hex_prefix(chars@.skip(start as int)),
        decreases n - start,
    {
        proof {
            assert(chars@.skip(start as int).skip(2) =~= chars@.skip(start + 2));
        }
        start += 2;
    }
    let ghost body = chars@.skip(start as int);
    if start < n && chars[start] == '+' {
        start += 1;
    }
    let ghost digits = chars@.skip(start as int);
    proof {
        assert(body.len() > 0 && body[0] == '+' ==> digits =~= body.drop_first());
    }
    if start == n {
        return None;
    }
    let ghost r_spec = color_of(arg@);
    let mut acc: u32 = 0;
    let mut i: usize = start;
    while i < n
        invariant
            n == chars.len(),
            start <= i <= n,
            start < n,
            digits == chars@.skip(start as int),
            r_spec == color_of(arg@),
            r_spec == match hex_number(digits) {
                Some(v) => if v <= u32::MAX {
                    Some(v as u32)
                } else {
                    None
                },
                None => None,
            },
            i > start ==> hex_number(digits.take(i - start)) == Some(acc as nat),
            i == start ==> acc == 0,
        decreases n - i,
    {
        let ghost seen = digits.take(i - start);
        let ghost next = digits.take(i - start + 1);
        proof {
            assert(next.drop_last() =~= seen);
            assert(next.last() == chars@[i as int]);
        }
        match hex_value(chars[i]) {
            None => {
                proof {
                    if hex_number(digits) is Some {
                        lemma_hex_prefix(digits, i - start + 1);
                    }
                }
                return None;
            },
            Some(d) => {
                if acc > (u32::MAX - d) / 16 {
                    proof {
                        if hex_number(digits) is Some {
                            lemma_hex_prefix(digits, i - start + 1);
                        }
                    }
                    return None;
                }
                acc = acc * 16 + d;
            },
        }
        i += 1;
    }
    proof {
        assert(digits.take(n - start) =~= digits);
    }
    Some(acc)
}


/// Whether `s` holds no line break.
pub open spec fn one_line(s: Seq<char>) -> bool {
    forall|i: int| 0 <= i < s.len() ==> #[trigger] s[i] != '\n'
}

/// A text without line breaks, ended by one, is one line: itself.
pub proof fn lemma_lines_of_one_line(s: Seq<char>)
    requires
        one_line(s),
    ensures
        lines(s.push('\n')) == seq![s],
{
    let t = s.push('\n');
    assert forall|k: int| 0 <= k < s.len() implies #[trigger] t[k] != '\n' by {
        assert(t[k] == s[k]);
    }
    lemma_line_len_is(t, s.len() as int);
    assert(t.take(s.len() as int) =~= s);
    assert(t.skip(s.len() as int + 1).len() == 0);
    assert(lines(t.skip(s.len() as int + 1)) =~= Seq::<Seq<char>>::empty());
    assert(seq![s] + Seq::<Seq<char>>::empty() =~= seq![s]);
}

/// A text without line breaks that is not ended by one is one line too,
/// unless it is empty.
pub proof fn lemma_lines_of_open_line(s: Seq<char>)
    requires
        one_line(s),
        s.len() > 0,
    ensures
        lines(s) == seq![s],
{
    lemma_line_len_is(s, s.len() as int);
}

/// The first word stops before the first white space.
proof fn lemma_word_is_clean(s: Seq<char>, k: int)
    requires
        0 <= k < word_len(s),
    ensures
        k < s.len(),
        !is_space(s[k]),
    decreases s.len(),
{
    if k > 0 {
        lemma_word_is_clean(s.drop_first(), k - 1);
    }
}

/// No word of a command line is empty or holds white space.
pub proof fn lemma_tokens_clean(s: Seq<char>, i: int)
    requires
        0 <= i < tokens(s).len(),
    ensures
        tokens(s)[i].len() > 0,
        forall|k: int| 0 <= k < tokens(s)[i].len() ==> !is_space(#[trigger] tokens(s)[i][k]),
        one_line(tokens(s)[i]),
    decreases s.len(),
{
    if s.len() > 0 {
        if is_space(s[0]) {
            lemma_tokens_clean(s.drop_first(), i);
        } else {
            lemma_word_len_bound(s);
            let n = word_len(s) as int;
            if i == 0 {
                assert forall|k: int| 0 <= k < n implies !is_space(#[trigger] s.take(n)[k]) by {
                    lemma_word_is_clean(s, k);
                }
            } else {
                lemma_tokens_clean(s.skip(n), i - 1);
            }
        }
    }
}

/// Words without line breaks, joined, hold no line break.
pub proof fn lemma_join_one_line(words: Seq<Seq<char>>)
    requires
        forall|i: int| 0 <= i < words.len() ==> one_line(#[trigger] words[i]),
    ensures
        one_line(join_words(words)),
    decreases words.len(),
{
    if words.len() > 1 {
        let init = words.drop_last();
        assert forall|i: int| 0 <= i < init.len() implies one_line(#[trigger] init[i]) by {
            assert(init[i] == words[i]);
        }
        lemma_join_one_line(init);
        let joined = join_words(words);
        let head = join_words(init);
        assert forall|k: int| 0 <= k < joined.len() implies #[trigger] joined[k] != '\n' by {
            if k < head.len() {
                assert(joined[k] == head[k]);
            } else if k > head.len() {
                assert(joined[k] == words.last()[k - head.len() - 1]);
            }
        }
    }
}

/// Trimming a text without line breaks leaves one without line breaks.
pub proof fn lemma_trimmed_one_line(s: Seq<char>)
    requires
        one_line(s),
    ensures
        one_line(trimmed(s)),
{
    lemma_trim_start_one_line(s);
    lemma_trim_end_one_line(trim_start(s));
}

proof fn lemma_trim_start_one_line(s: Seq<char>)
    requires
        one_line(s),
    ensures
        one_line(trim_start(s)),
    decreases s.len(),
{
    if s.len() > 0 && is_space(s[0]) {
        let t = s.drop_first();
        assert forall|i: int| 0 <= i < t.len() implies #[trigger] t[i] != '\n' by {
            assert(t[i] == s[i + 1]);
        }
        lemma_trim_start_one_line(t);
    }
}

proof fn lemma_trim_end_one_line(s: Seq<char>)
    requires
        one_line(s),
    ensures
        one_line(trim_end(s)),
    decreases s.len(),
{
    if s.len() > 0 && is_space(s.last()) {
        let t = s.drop_last();
        assert forall|i: int| 0 <= i < t.len() implies #[trigger] t[i] != '\n' by {
            assert(t[i] == s[i]);
        }
        lemma_trim_end_one_line(t);
    }
}

} // verus!
