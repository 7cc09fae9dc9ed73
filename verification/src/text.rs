//! Text: white space, words, lines and decimal numbers.

use vstd::prelude::*;
use vstd::slice::slice_subrange;
use vstd::string::*;

verus! {

/// `String::push` appends one character.
pub assume_specification[ String::push ](s: &mut String, c: char)
    ensures
        final(s)@ == old(s)@.push(c),
;

/// The characters with the Unicode property `White_Space`.
pub open spec fn is_space(c: char) -> bool {
    ||| '\u{9}' <= c <= '\u{d}'
    ||| c == '\u{20}'
    ||| c == '\u{85}'
    ||| c == '\u{a0}'
    ||| c == '\u{1680}'
    ||| '\u{2000}' <= c <= '\u{200a}'
    ||| c == '\u{2028}'
    ||| c == '\u{2029}'
    ||| c == '\u{202f}'
    ||| c == '\u{205f}'
    ||| c == '\u{3000}'
}

/// `s` without the white space before it.
pub open spec fn trim_start(s: Seq<char>) -> Seq<char>
    decreases s.len(),
{
    if s.len() > 0 && is_space(s[0]) {
        trim_start(s.skip(1))
    } else {
        s
    }
}

/// `s` without the white space behind it.
pub open spec fn trim_end(s: Seq<char>) -> Seq<char>
    decreases s.len(),
{
    if s.len() > 0 && is_space(s.last()) {
        trim_end(s.drop_last())
    } else {
        s
    }
}

/// `s` without the white space around it.
pub open spec fn trim(s: Seq<char>) -> Seq<char> {
    trim_end(trim_start(s))
}

/// The number of characters before the first `sep`, all of them if there is
/// none.
pub open spec fn run(s: Seq<char>, sep: char) -> nat
    decreases s.len(),
{
    if s.len() == 0 || s[0] == sep {
        0
    } else {
        1 + run(s.skip(1), sep)
    }
}

/// The pieces of `s` between the occurrences of `sep`.
pub open spec fn split(s: Seq<char>, sep: char) -> Seq<Seq<char>>
    decreases s.len(),
{
    let n = run(s, sep);
    if n < s.len() {
        seq![s.take(n as int)] + split(s.skip(n as int + 1), sep)
    } else {
        seq![s]
    }
}

/// The number of characters before the first white space.
pub open spec fn word_len(s: Seq<char>) -> nat
    decreases s.len(),
{
    if s.len() == 0 || is_space(s[0]) {
        0
    } else {
        1 + word_len(s.skip(1))
    }
}

/// The pieces of `s` between stretches of white space, none of them empty.
pub open spec fn words(s: Seq<char>) -> Seq<Seq<char>>
    decreases s.len(),
{
    let t = trim_start(s);
    let n = word_len(t);
    if 0 < n <= t.len() <= s.len() {
        seq![t.take(n as int)] + words(t.skip(n as int))
    } else {
        Seq::empty()
    }
}

pub open spec fn is_digit(c: char) -> bool {
    '0' <= c <= '9'
}

/// The value of a sequence of decimal digits.
pub open spec fn digits_value(s: Seq<char>) -> nat
    decreases s.len(),
{
    if s.len() == 0 {
        0
    } else {
        10 * digits_value(s.drop_last()) + (s.last() as nat - '0' as nat) as nat
    }
}

pub open spec fn all_digits(s: Seq<char>) -> bool {
    forall|i: int| 0 <= i < s.len() ==> is_digit(#[trigger] s[i])
}

/// `s` without one leading plus sign.
pub open spec fn unsigned_part(s: Seq<char>) -> Seq<char> {
    if s.len() > 0 && s[0] == '+' {
        s.skip(1)
    } else {
        s
    }
}

/// The number that `s` writes: decimal digits, perhaps behind a plus sign,
/// for a number of at most `max`.
pub open spec fn number(s: Seq<char>, max: nat) -> Option<nat> {
    let d = unsigned_part(s);
    if d.len() > 0 && all_digits(d) && digits_value(d) <= max {
        Some(digits_value(d))
    } else {
        None
    }
}

/// The decimal digit of `d`.
pub open spec fn digit(d: nat) -> char {
    ('0' as nat + d) as char
}

/// `n` in decimal.
pub open spec fn decimal(n: nat) -> Seq<char>
    decreases n,
{
    if n < 10 {
        seq![digit(n)]
    } else {
        decimal(n / 10).push(digit(n % 10))
    }
}

/// What a string is, if there is one.
pub open spec fn text_of(s: Option<String>) -> Option<Seq<char>> {
    match s {
        Some(t) => Some(t@),
        None => None,
    }
}

/// What a vector of strings holds.
pub open spec fn strings_of(v: Seq<String>) -> Seq<Seq<char>> {
    v.map_values(|s: String| s@)
}

/// The characters of a string.
pub fn to_chars(s: &str) -> (v: Vec<char>)
    ensures
        v@ == s@,
{
    let mut v: Vec<char> = Vec::new();
    for c in it: s.chars()
        invariant
            v@ == it.seq().take(it.index() as int),
            it.seq() == s@,
    {
        v.push(c);
    }
    v
}

/// The string of the given characters.
pub fn to_text(s: &[char]) -> (r: String)
    ensures
        r@ == s@,
{
    let mut r = String::new();
    let mut i: usize = 0;
    while i < s.len()
        invariant
            i <= s.len(),
            r@ == s@.take(i as int),
        decreases s.len() - i,
    {
        r.push(s[i]);
        i = i + 1;
    }
    r
}

/// Whether two sequences of characters are the same.
pub fn same_chars(a: &[char], b: &[char]) -> (r: bool)
    ensures
        r == (a@ == b@),
{
    if a.len() != b.len() {
        return false;
    }
    let mut i: usize = 0;
    while i < a.len()
        invariant
            i <= a.len(),
            a.len() == b.len(),
            forall|j: int| 0 <= j < i ==> a@[j] == b@[j],
        decreases a.len() - i,
    {
        if a[i] != b[i] {
            return false;
        }
        i = i + 1;
    }
    assert(a@ =~= b@);
    true
}

/// Whether characters spell the string `b`.
pub fn same(a: &[char], b: &str) -> (r: bool)
    ensures
        r == (a@ == b@),
{
    same_chars(a, to_chars(b).as_slice())
}

/// Whether a character is white space.
pub fn space(c: char) -> (r: bool)
    ensures
        r == is_space(c),
{
    ('\u{9}' <= c && c <= '\u{d}') || c == '\u{20}' || c == '\u{85}' || c == '\u{a0}' || c
        == '\u{1680}' || ('\u{2000}' <= c && c <= '\u{200a}') || c == '\u{2028}' || c == '\u{2029}'
        || c == '\u{202f}' || c == '\u{205f}' || c == '\u{3000}'
}

/// Cuts the white space before the text.
pub fn cut_start(s: &[char]) -> (r: &[char])
    ensures
        r@ == trim_start(s@),
{
    let mut i: usize = 0;
    assert(s@.skip(0) =~= s@);
    while i < s.len() && space(s[i])
        invariant
            i <= s.len(),
            trim_start(s@) == trim_start(s@.skip(i as int)),
        decreases s.len() - i,
    {
        assert(s@.skip(i as int).skip(1) =~= s@.skip(i as int + 1));
        i = i + 1;
    }
    assert(s@.skip(i as int) =~= s@.subrange(i as int, s@.len() as int));
    slice_subrange(s, i, s.len())
}

/// Cuts the white space behind the text.
pub fn cut_end(s: &[char]) -> (r: &[char])
    ensures
        r@ == trim_end(s@),
{
    let mut i: usize = s.len();
    assert(s@.take(i as int) =~= s@);
    while i > 0 && space(s[i - 1])
        invariant
            i <= s.len(),
            trim_end(s@) == trim_end(s@.take(i as int)),
        decreases i,
    {
        assert(s@.take(i as int).drop_last() =~= s@.take(i as int - 1));
        i = i - 1;
    }
    assert(s@.take(i as int) =~= s@.subrange(0, i as int));
    slice_subrange(s, 0, i)
}

/// Cuts the white space around the text.
pub fn cut(s: &[char]) -> (r: &[char])
    ensures
        r@ == trim(s@),
{
    cut_end(cut_start(s))
}

/// The text without the white space around it.
pub fn trimmed(s: &str) -> (r: String)
    ensures
        r@ == trim(s@),
{
    to_text(cut(to_chars(s).as_slice()))
}

/// What a vector of slices holds.
pub open spec fn contents(v: Seq<&[char]>) -> Seq<Seq<char>> {
    v.map_values(|x: &[char]| x@)
}

/// Finds the first `sep`.
pub fn find(s: &[char], sep: char) -> (n: usize)
    ensures
        n == run(s@, sep),
        n <= s@.len(),
{
    let mut i: usize = 0;
    assert(s@.skip(0) =~= s@);
    while i < s.len() && s[i] != sep
        invariant
            i <= s.len(),
            run(s@, sep) == i + run(s@.skip(i as int), sep),
        decreases s.len() - i,
    {
        assert(s@.skip(i as int).skip(1) =~= s@.skip(i as int + 1));
        i = i + 1;
    }
    i
}

/// Splits the text at every `sep`.
pub fn pieces(s: &[char], sep: char) -> (v: Vec<&[char]>)
    ensures
        contents(v@) == split(s@, sep),
        v@.len() > 0,
{
    let mut v: Vec<&[char]> = Vec::new();
    let mut rest: &[char] = s;
    loop
        invariant_except_break
            split(s@, sep) == contents(v@) + split(rest@, sep),
        ensures
            contents(v@) == split(s@, sep),
            v@.len() > 0,
        decreases rest@.len(),
    {
        let n = find(rest, sep);
        let ghost before = v@;
        if n < rest.len() {
            let piece = slice_subrange(rest, 0, n);
            let tail = slice_subrange(rest, n + 1, rest.len());
            v.push(piece);
            proof {
                assert(rest@.take(n as int) =~= piece@);
                assert(rest@.skip(n as int + 1) =~= tail@);
                assert(contents(v@) =~= contents(before).push(piece@));
                assert(contents(before) + (seq![piece@] + split(tail@, sep)) =~= contents(v@)
                    + split(tail@, sep));
            }
            rest = tail;
        } else {
            v.push(rest);
            proof {
                assert(contents(v@) =~= contents(before).push(rest@));
                assert(contents(before) + seq![rest@] =~= contents(v@));
            }
            break;
        }
    }
    v
}

proof fn lemma_trim_start_bound(s: Seq<char>)
    ensures
        trim_start(s).len() <= s.len(),
        trim_start(s).len() > 0 ==> !is_space(trim_start(s)[0]),
    decreases s.len(),
{
    if s.len() > 0 && is_space(s[0]) {
        lemma_trim_start_bound(s.skip(1));
    }
}

/// Splits the text at stretches of white space.
pub fn tokens(s: &[char]) -> (v: Vec<&[char]>)
    ensures
        contents(v@) == words(s@),
{
    let mut v: Vec<&[char]> = Vec::new();
    let mut rest: &[char] = s;
    loop
        invariant
            words(s@) == contents(v@) + words(rest@),
        ensures
            contents(v@) == words(s@),
        decreases rest@.len(),
    {
        let t = cut_start(rest);
        let ghost before = v@;
        proof {
            lemma_trim_start_bound(rest@);
        }
        let mut n: usize = 0;
        assert(t@.skip(0) =~= t@);
        while n < t.len() && !space(t[n])
            invariant
                n <= t.len(),
                word_len(t@) == n + word_len(t@.skip(n as int)),
            decreases t.len() - n,
        {
            assert(t@.skip(n as int).skip(1) =~= t@.skip(n as int + 1));
            n = n + 1;
        }
        assert(word_len(t@) == n);
        if n == 0 {
            assert(contents(v@) + Seq::<Seq<char>>::empty() =~= contents(v@));
            break;
        }
        let word = slice_subrange(t, 0, n);
        let tail = slice_subrange(t, n, t.len());
        v.push(word);
        proof {
            assert(t@.take(n as int) =~= word@);
            assert(t@.skip(n as int) =~= tail@);
            assert(contents(v@) =~= contents(before).push(word@));
            assert(contents(before) + (seq![word@] + words(tail@)) =~= contents(v@) + words(tail@));
        }
        rest = tail;
    }
    v
}

/// The value of more digits is larger.
proof fn lemma_digits_grow(s: Seq<char>, i: int)
    requires
        0 <= i <= s.len(),
    ensures
        digits_value(s.take(i)) <= digits_value(s),
    decreases s.len(),
{
    if i < s.len() {
        assert(s.drop_last().take(i) =~= s.take(i));
        lemma_digits_grow(s.drop_last(), i);
    } else {
        assert(s.take(i) =~= s);
    }
}

/// Reads a number of at most `max`.
pub fn parse_number(s: &[char], max: u64) -> (r: Option<u64>)
    ensures
        r is Some <==> number(s@, max as nat) is Some,
        r matches Some(n) ==> number(s@, max as nat) == Some(n as nat),
{
    let d = if s.len() > 0 && s[0] == '+' {
        assert(s@.skip(1) =~= s@.subrange(1, s@.len() as int));
        slice_subrange(s, 1, s.len())
    } else {
        s
    };
    if d.len() == 0 {
        return None;
    }
    let mut n: u64 = 0;
    let mut i: usize = 0;
    while i < d.len()
        invariant
            i <= d.len(),
            d@ == unsigned_part(s@),
            n <= max,
            n == digits_value(d@.take(i as int)),
            forall|j: int| 0 <= j < i ==> is_digit(#[trigger] d@[j]),
        decreases d.len() - i,
    {
        let c = d[i];
        if c < '0' || c > '9' {
            assert(!is_digit(d@[i as int]));
            return None;
        }
        assert(d@.take(i as int + 1).drop_last() =~= d@.take(i as int));
        let v: u64 = c as u64 - '0' as u64;
        proof {
            lemma_digits_grow(d@, i as int + 1);
        }
        if v > max || n > max / 10 || 10 * n > max - v {
            return None;
        }
        n = 10 * n + v;
        i = i + 1;
    }
    assert(d@.take(i as int) =~= d@);
    Some(n)
}

/// Appends `n` in decimal.
pub fn push_decimal(s: &mut String, n: u128)
    ensures
        final(s)@ == old(s)@ + decimal(n as nat),
    decreases n,
{
    if n >= 10 {
        push_decimal(s, n / 10);
    }
    let d: u8 = (n % 10) as u8;
    s.push((48 + d) as char);
    assert(s@ =~= old(s)@ + decimal(n as nat));
}

/// `n` in decimal.
pub fn decimal_text(n: u128) -> (r: String)
    ensures
        r@ == decimal(n as nat),
{
    let mut r = String::new();
    push_decimal(&mut r, n);
    assert(Seq::<char>::empty() + decimal(n as nat) =~= decimal(n as nat));
    r
}

/// Whether `s` begins with `p`.
pub open spec fn begins(s: Seq<char>, p: Seq<char>) -> bool {
    p.len() <= s.len() && s.take(p.len() as int) == p
}

/// Whether `s` ends with `p`.
pub open spec fn ends(s: Seq<char>, p: Seq<char>) -> bool {
    p.len() <= s.len() && s.skip(s.len() - p.len()) == p
}

/// Whether the text begins with `p`.
pub fn starts_with(s: &[char], p: &str) -> (r: bool)
    ensures
        r == begins(s@, p@),
{
    let c = to_chars(p);
    if c.len() > s.len() {
        return false;
    }
    assert(s@.take(c.len() as int) =~= s@.subrange(0, c.len() as int));
    same_chars(slice_subrange(s, 0, c.len()), c.as_slice())
}

/// Whether the text ends with `p`.
pub fn ends_with(s: &[char], p: &str) -> (r: bool)
    ensures
        r == ends(s@, p@),
{
    let c = to_chars(p);
    if c.len() > s.len() {
        return false;
    }
    assert(s@.skip(s.len() - c.len()) =~= s@.subrange(s.len() - c.len(), s@.len() as int));
    same_chars(slice_subrange(s, s.len() - c.len(), s.len()), c.as_slice())
}

/// Ten to the power of `places`.
pub open spec fn tens(places: nat) -> nat
    decreases places,
{
    if places == 0 {
        1
    } else {
        10 * tens((places - 1) as nat)
    }
}

/// The last `width` decimal digits of `n`.
pub open spec fn padded(n: nat, width: nat) -> Seq<char>
    decreases width,
{
    if width == 0 {
        Seq::empty()
    } else {
        padded(n / 10, (width - 1) as nat).push(digit(n % 10))
    }
}

/// `n` shifted right by `places` decimal places, written out.
pub open spec fn with_places(n: nat, places: nat) -> Seq<char> {
    if places == 0 {
        decimal(n)
    } else {
        (decimal(n / tens(places)) + seq!['.']) + padded(n % tens(places), places)
    }
}

/// Appends the last `width` decimal digits of `n`.
fn push_padded(s: &mut String, n: u128, width: u32)
    ensures
        final(s)@ == old(s)@ + padded(n as nat, width as nat),
    decreases width,
{
    if width > 0 {
        push_padded(s, n / 10, width - 1);
        let d: u8 = (n % 10) as u8;
        s.push((48 + d) as char);
    }
    assert(s@ =~= old(s)@ + padded(n as nat, width as nat));
}

/// Appends `n` shifted right by `places` decimal places.
pub fn push_places(s: &mut String, n: u128, places: u32)
    requires
        places <= 2,
    ensures
        final(s)@ == old(s)@ + with_places(n as nat, places as nat),
{
    if places == 0 {
        push_decimal(s, n);
    } else {
        let step: u128 = if places == 1 { 10 } else { 100 };
        proof {
            reveal_with_fuel(tens, 3);
            assert(step == tens(places as nat));
        }
        push_decimal(s, n / step);
        s.push('.');
        push_padded(s, n % step, places);
        assert(s@ =~= old(s)@ + with_places(n as nat, places as nat));
    }
}

/// A decimal number is made of digits, and reads back as itself.
pub proof fn lemma_decimal(n: nat)
    ensures
        decimal(n).len() > 0,
        all_digits(decimal(n)),
        digits_value(decimal(n)) == n,
    decreases n,
{
    let s = decimal(n);
    if n < 10 {
        assert(s.drop_last() =~= Seq::empty());
        assert(digits_value(s.drop_last()) == 0);
    } else {
        lemma_decimal(n / 10);
        assert(s.drop_last() =~= decimal(n / 10));
        assert forall|i: int| 0 <= i < s.len() implies is_digit(#[trigger] s[i]) by {
            if i < s.len() - 1 {
                assert(s[i] == decimal(n / 10)[i]);
            }
        }
    }
}

/// What is written in decimal is read back.
pub proof fn number_of_decimal(n: nat, max: nat)
    requires
        n <= max,
    ensures
        number(decimal(n), max) == Some(n),
{
    lemma_decimal(n);
    assert(is_digit(decimal(n)[0]));
}

/// White space before a text, and nothing else, is cut from its beginning.
pub proof fn leading_space_is_cut(c: char, s: Seq<char>)
    ensures
        is_space(c) ==> trim_start(seq![c] + s) == trim_start(s),
        !is_space(c) ==> trim_start(seq![c] + s) == seq![c] + s,
        trim_start(Seq::empty()) == Seq::<char>::empty(),
{
    assert((seq![c] + s).skip(1) =~= s);
}

/// White space behind a text, and nothing else, is cut from its end.
pub proof fn trailing_space_is_cut(s: Seq<char>, c: char)
    ensures
        is_space(c) ==> trim_end(s.push(c)) == trim_end(s),
        !is_space(c) ==> trim_end(s.push(c)) == s.push(c),
        trim_end(Seq::empty()) == Seq::<char>::empty(),
{
    assert(s.push(c).drop_last() =~= s);
}

/// A text that neither begins nor ends in white space is left as it is, and
/// what is left of any text is such a text.
pub proof fn trimmed_text_stays(s: Seq<char>)
    ensures
        s.len() > 0 && !is_space(s[0]) && !is_space(s.last()) ==> trim(s) == s,
        trim(s).len() > 0 ==> !is_space(trim(s)[0]) && !is_space(trim(s).last()),
        trim(trim(s)) == trim(s),
{
    lemma_trim_start_bound(s);
    lemma_trim_end_bound(trim_start(s));
}

proof fn lemma_trim_end_bound(s: Seq<char>)
    ensures
        trim_end(s).len() <= s.len(),
        trim_end(s).len() > 0 ==> !is_space(trim_end(s).last()) && trim_end(s)[0] == s[0],
    decreases s.len(),
{
    if s.len() > 0 && is_space(s.last()) {
        lemma_trim_end_bound(s.drop_last());
    }
}

proof fn lemma_run_before(a: Seq<char>, sep: char, b: Seq<char>)
    requires
        !a.contains(sep),
    ensures
        run(a + b, sep) == a.len() + run(b, sep),
    decreases a.len(),
{
    if a.len() == 0 {
        assert(a + b =~= b);
    } else {
        assert(a[0] != sep);
        assert((a + b).skip(1) =~= a.skip(1) + b);
        assert forall|i: int| 0 <= i < a.skip(1).len() implies a.skip(1)[i] != sep by {
            assert(a.skip(1)[i] == a[i + 1]);
        }
        lemma_run_before(a.skip(1), sep, b);
    }
}

/// A text without the separator is one piece; the first separator parts the
/// first piece from the pieces of the rest.
pub proof fn separator_parts_the_pieces(a: Seq<char>, sep: char, b: Seq<char>)
    requires
        !a.contains(sep),
    ensures
        split(a, sep) == seq![a],
        split(a + seq![sep] + b, sep) == seq![a] + split(b, sep),
{
    lemma_run_before(a, sep, Seq::empty());
    assert(a + Seq::<char>::empty() =~= a);
    let s = a + seq![sep] + b;
    assert(s =~= a + (seq![sep] + b));
    lemma_run_before(a, sep, seq![sep] + b);
    assert((seq![sep] + b)[0] == sep);
    assert(s.take(a.len() as int) =~= a);
    assert(s.skip(a.len() as int + 1) =~= b);
}

proof fn lemma_word_before(w: Seq<char>, rest: Seq<char>)
    requires
        forall|i: int| 0 <= i < w.len() ==> !is_space(#[trigger] w[i]),
        rest.len() > 0 ==> is_space(rest[0]),
    ensures
        word_len(w + rest) == w.len(),
    decreases w.len(),
{
    if w.len() == 0 {
        assert(w + rest =~= rest);
    } else {
        assert((w + rest)[0] == w[0]);
        assert((w + rest).skip(1) =~= w.skip(1) + rest);
        assert forall|i: int| 0 <= i < w.skip(1).len() implies !is_space(
            #[trigger] w.skip(1)[i],
        ) by {
            assert(w.skip(1)[i] == w[i + 1]);
        }
        lemma_word_before(w.skip(1), rest);
    }
}

/// White space parts words: leading space does not matter, and a stretch
/// without any is the first word, before the words of what follows.
pub proof fn space_parts_the_words(w: Seq<char>, c: char, s: Seq<char>)
    requires
        is_space(c),
        w.len() > 0,
        forall|i: int| 0 <= i < w.len() ==> !is_space(#[trigger] w[i]),
    ensures
        words(Seq::empty()).len() == 0,
        words(w) == seq![w],
        words(seq![c] + s) == words(s),
        words(w + seq![c] + s) == seq![w] + words(s),
{
    lemma_trim_start_bound(Seq::empty());
    leading_space_is_cut(c, s);
    lemma_trim_start_bound(s);
    lemma_trim_start_bound(seq![c] + s);
    let tail = seq![c] + s;
    assert(words(tail) == words(s));
    assert(!is_space(w[0]));
    assert(w + Seq::<char>::empty() =~= w);
    lemma_word_before(w, Seq::empty());
    assert(w.take(w.len() as int) =~= w);
    assert(w.skip(w.len() as int) =~= Seq::empty());
    assert(trim_start(Seq::<char>::empty()) == Seq::<char>::empty());
    assert(words(Seq::<char>::empty()) =~= Seq::empty());
    assert(words(w) =~= seq![w]);
    let all = w + seq![c] + s;
    assert(all =~= w + tail);
    assert(all[0] == w[0]);
    lemma_word_before(w, tail);
    assert(all.take(w.len() as int) =~= w);
    assert(all.skip(w.len() as int) =~= tail);
}

/// Signs and other characters: a plus sign before a number does not matter, and
/// a text with anything but digits behind that writes no number.
pub proof fn only_digits_write_a_number(n: nat, max: nat, s: Seq<char>)
    requires
        n <= max,
    ensures
        number(seq!['+'] + decimal(n), max) == Some(n),
        number(Seq::empty(), max) is None,
        s.len() > 0 && s[0] != '+' && !all_digits(s) ==> number(s, max) is None,
        number(decimal(max + 1), max) is None,
{
    number_of_decimal(n, max);
    lemma_decimal(n);
    lemma_decimal(max + 1);
    assert((seq!['+'] + decimal(n)).skip(1) =~= decimal(n));
    assert(is_digit(decimal(max + 1)[0]));
}

} // verus!
