//! Character-level helpers shared by the notation parsers: turning
//! strings into character vectors and back, and decimal numerals.

use vstd::prelude::*;
use vstd::string::StrSliceExecFns;

verus! {

/// The characters of an optional string field, for contracts over
/// optional raw input.
pub open spec fn opt_chars(s: Option<&str>) -> Option<Seq<char>> {
    match s {
        Some(t) => Some(t@),
        None => None,
    }
}

/// Collects the characters of a string slice into a vector.
pub fn chars_vec(s: &str) -> (r: Vec<char>)
    ensures
        r@ == s@,
{
    let n = s.unicode_len();
    let mut out: Vec<char> = Vec::new();
    let mut i: usize = 0;
    while i < n
        invariant
            i <= n,
            n == s@.len(),
            out@ == s@.take(i as int),
        decreases n - i,
    {
        out.push(s.get_char(i));
        i = i + 1;
        proof {
            assert(out@ =~= s@.take(i as int));
        }
    }
    proof {
        assert(s@.take(n as int) =~= s@);
    }
    out
}

/// Relies on `String::push`: appends exactly the given character.
#[verifier::external_body]
pub(crate) fn push_char(s: &mut String, c: char)
    ensures
        final(s)@ == old(s)@.push(c),
{
    s.push(c);
}

/// Builds a string holding exactly the given characters.
pub fn string_of(chars: &Vec<char>) -> (r: String)
    ensures
        r@ == chars@,
{
    let mut out = String::new();
    let mut i: usize = 0;
    while i < chars.len()
        invariant
            i <= chars@.len(),
            out@ == chars@.take(i as int),
        decreases chars@.len() - i,
    {
        push_char(&mut out, chars[i]);
        i = i + 1;
        proof {
            assert(out@ =~= chars@.take(i as int));
        }
    }
    proof {
        assert(chars@.take(chars@.len() as int) =~= chars@);
    }
    out
}

/// Whether the character is a decimal digit.
pub open spec fn is_digit(c: char) -> bool {
    48 <= c as u32 && c as u32 <= 57
}

/// The value of one decimal digit.
pub open spec fn digit_val(c: char) -> nat
    recommends
        is_digit(c),
{
    (c as u32 - 48) as nat
}

/// Whether every character of the sequence is a decimal digit.
pub open spec fn all_digits(s: Seq<char>) -> bool {
    forall|i: int| 0 <= i < s.len() ==> is_digit(#[trigger] s[i])
}

/// The value of a sequence of decimal digits, most significant first.
pub open spec fn digits_val(s: Seq<char>) -> nat
    decreases s.len(),
{
    if s.len() == 0 {
        0
    } else {
        digits_val(s.drop_last()) * 10 + digit_val(s.last())
    }
}

/// A digit prefix never exceeds the value of the whole numeral.
pub proof fn lemma_digits_val_prefix(s: Seq<char>, i: int)
    requires
        0 <= i <= s.len(),
    ensures
        digits_val(s.take(i)) <= digits_val(s),
    decreases s.len() - i,
{
    if i == s.len() {
        assert(s.take(i) =~= s);
    } else {
        assert(s.take(i + 1).drop_last() =~= s.take(i));
        assert(s.take(i + 1).last() == s[i]);
        assert(digits_val(s.take(i)) <= digits_val(s.take(i + 1)));
        lemma_digits_val_prefix(s, i + 1);
    }
}

/// The numeral denoted by the sequence: a non-empty run of decimal
/// digits whose value fits in 32 bits, and nothing else.
pub open spec fn u32_of(s: Seq<char>) -> Option<u32> {
    if s.len() > 0 && all_digits(s) && digits_val(s) <= u32::MAX {
        Some(digits_val(s) as u32)
    } else {
        None
    }
}

/// Parses a clock field of a position: digits only, no sign, no
/// overflow past 32 bits.
pub fn u32_from_chars(v: &Vec<char>) -> (r: Option<u32>)
    ensures
        r == u32_of(v@),
{
    let n = v.len();
    if n == 0 {
        return None;
    }
    let mut val: u32 = 0;
    let mut i: usize = 0;
    while i < n
        invariant
            i <= n,
            n == v@.len(),
            all_digits(v@.take(i as int)),
            val == digits_val(v@.take(i as int)),
        decreases n - i,
    {
        let c = v[i];
        let code = c as u32;
        if code < 48 || code > 57 {
            assert(!is_digit(v@[i as int]));
            return None;
        }
        let d = code - 48;
        if val > 429496729 || (val == 429496729 && d > 5) {
            proof {
                assert(v@.take(i as int + 1).drop_last() =~= v@.take(i as int));
                assert(v@.take(i as int + 1).last() == v@[i as int]);
                assert(digits_val(v@.take(i as int + 1)) > u32::MAX);
                lemma_digits_val_prefix(v@, i as int + 1);
            }
            return None;
        }
        proof {
            assert(v@.take(i as int + 1).drop_last() =~= v@.take(i as int));
            assert(v@.take(i as int + 1).last() == v@[i as int]);
        }
        val = val * 10 + d;
        i = i + 1;
    }
    proof {
        assert(v@.take(n as int) =~= v@);
    }
    Some(val)
}

/// The pieces of the sequence between occurrences of the separator:
/// one piece more than there are separators, in order, each free of
/// the separator, possibly empty.
pub open spec fn split_on(s: Seq<char>, sep: char) -> Seq<Seq<char>>
    decreases s.len(),
{
    if s.len() == 0 {
        seq![Seq::empty()]
    } else {
        let prev = split_on(s.drop_last(), sep);
        if s.last() == sep {
            prev.push(Seq::empty())
        } else {
            prev.update(prev.len() - 1, prev.last().push(s.last()))
        }
    }
}

/// Splitting yields at least one piece.
pub proof fn lemma_split_on_len(s: Seq<char>, sep: char)
    ensures
        split_on(s, sep).len() >= 1,
    decreases s.len(),
{
    if s.len() > 0 {
        lemma_split_on_len(s.drop_last(), sep);
    }
}

/// The views of a vector of character vectors.
pub open spec fn views_of(ts: Seq<Vec<char>>) -> Seq<Seq<char>> {
    ts.map_values(|t: Vec<char>| t@)
}

/// Splits the characters on a separator.
pub fn split_chars(v: &Vec<char>, sep: char) -> (r: Vec<Vec<char>>)
    ensures
        views_of(r@) == split_on(v@, sep),
        r@.len() >= 1,
{
    let mut acc: Vec<Vec<char>> = Vec::new();
    acc.push(Vec::new());
    proof {
        assert(views_of(acc@) =~= split_on(v@.take(0), sep));
    }
    let mut i: usize = 0;
    while i < v.len()
        invariant
            i <= v@.len(),
            acc@.len() >= 1,
            views_of(acc@) == split_on(v@.take(i as int), sep),
        decreases v@.len() - i,
    {
        let c = v[i];
        proof {
            lemma_split_on_len(v@.take(i as int), sep);
            assert(v@.take(i as int + 1).drop_last() =~= v@.take(i as int));
            assert(v@.take(i as int + 1).last() == v@[i as int]);
        }
        if c == sep {
            acc.push(Vec::new());
        } else {
            let mut piece = acc.pop().unwrap();
            piece.push(c);
            acc.push(piece);
        }
        i = i + 1;
        proof {
            assert(views_of(acc@) =~= split_on(v@.take(i as int), sep));
        }
    }
    proof {
        assert(v@.take(v@.len() as int) =~= v@);
    }
    acc
}

/// The character of one decimal digit.
pub open spec fn digit_char(d: nat) -> char
    recommends
        d < 10,
{
    ((48 + d) as u8) as char
}

/// The canonical decimal numeral of a 32-bit number: no sign, no
/// leading zeros.
pub open spec fn u32_str(n: u32) -> Seq<char>
    decreases n,
{
    if n < 10 {
        seq![digit_char(n as nat)]
    } else {
        u32_str((n / 10) as u32) + seq![digit_char((n % 10) as nat)]
    }
}

/// Appends the canonical decimal numeral of the number.
pub fn push_u32(out: &mut Vec<char>, n: u32)
    ensures
        final(out)@ == old(out)@ + u32_str(n),
    decreases n,
{
    if n >= 10 {
        push_u32(out, n / 10);
    }
    let d = n % 10;
    out.push(((48 + d) as u8) as char);
    proof {
        if n < 10 {
            assert(out@ =~= old(out)@ + u32_str(n));
        } else {
            assert(out@ =~= old(out)@ + u32_str(n));
        }
    }
}

} // verus!

verus! {

/// A sequence free of the separator splits into itself alone.
pub proof fn lemma_split_on_whole(s: Seq<char>, sep: char)
    requires
        !s.contains(sep),
    ensures
        split_on(s, sep) == seq![s],
    decreases s.len(),
{
    if s.len() == 0 {
        assert(s =~= Seq::<char>::empty());
        assert(split_on(s, sep) =~~= seq![s]);
    } else {
        assert(forall|i: int| 0 <= i < s.len() ==> s[i] != sep);
        assert(!s.drop_last().contains(sep));
        lemma_split_on_whole(s.drop_last(), sep);
        assert(s.last() != sep);
        assert(s.drop_last().push(s.last()) =~= s);
        assert(split_on(s, sep) =~~= seq![s]);
    }
}

/// Appending a separator and then a separator-free tail appends one
/// piece to the split.
pub proof fn lemma_split_on_append(a: Seq<char>, b: Seq<char>, sep: char)
    requires
        !b.contains(sep),
    ensures
        split_on(a + seq![sep] + b, sep) == split_on(a, sep).push(b),
    decreases b.len(),
{
    lemma_split_on_len(a, sep);
    if b.len() == 0 {
        assert(a + seq![sep] + b =~= a + seq![sep]);
        assert((a + seq![sep]).drop_last() =~= a);
        assert((a + seq![sep]).last() == sep);
        assert(b =~= Seq::<char>::empty());
        assert(split_on(a + seq![sep] + b, sep) =~~= split_on(a, sep).push(b));
    } else {
        assert(forall|i: int| 0 <= i < b.len() ==> b[i] != sep);
        assert(!b.drop_last().contains(sep));
        lemma_split_on_append(a, b.drop_last(), sep);
        let s = a + seq![sep] + b;
        assert(s.drop_last() =~= a + seq![sep] + b.drop_last());
        assert(s.last() == b.last());
        assert(b.last() != sep);
        let prev = split_on(a, sep).push(b.drop_last());
        assert(prev.last() == b.drop_last());
        assert(b.drop_last().push(b.last()) =~= b);
        assert(split_on(s, sep) =~~= split_on(a, sep).push(b));
    }
}

/// The digits of a canonical numeral.
pub proof fn lemma_u32_str_digits(n: u32)
    ensures
        u32_str(n).len() > 0,
        all_digits(u32_str(n)),
    decreases n,
{
    if n < 10 {
        assert(is_digit(digit_char(n as nat)));
        assert(all_digits(u32_str(n)));
    } else {
        lemma_u32_str_digits(n / 10);
        assert(is_digit(digit_char((n % 10) as nat)));
        let s = u32_str(n / 10) + seq![digit_char((n % 10) as nat)];
        assert(forall|i: int| 0 <= i < s.len() ==> is_digit(#[trigger] s[i]));
    }
}

/// A canonical numeral denotes the number it was printed from.
pub proof fn lemma_u32_str_val(n: u32)
    ensures
        digits_val(u32_str(n)) == n,
    decreases n,
{
    if n < 10 {
        let s = u32_str(n);
        let c = digit_char(n as nat);
        assert(c as u32 == 48 + n);
        assert(digit_val(c) == n);
        assert(s.drop_last() =~= Seq::<char>::empty());
        assert(digits_val(s.drop_last()) == 0);
        assert(s.last() == c);
        assert(digits_val(s) == n);
    } else {
        lemma_u32_str_val(n / 10);
        lemma_u32_str_digits(n / 10);
        let a = u32_str(n / 10);
        let c = digit_char((n % 10) as nat);
        assert((a + seq![c]).drop_last() =~= a);
        assert((a + seq![c]).last() == c);
        assert(c as u32 == 48 + n % 10);
        assert(digit_val(c) == n % 10);
        assert(n / 10 * 10 + n % 10 == n);
        assert(digits_val(a + seq![c]) == n);
    }
}

/// Canonical numerals round-trip through parsing.
pub proof fn lemma_u32_round_trip(n: u32)
    ensures
        u32_of(u32_str(n)) == Some(n),
{
    lemma_u32_str_digits(n);
    lemma_u32_str_val(n);
}

/// Digits are neither the space nor the rank separator of a
/// position line.
pub proof fn lemma_digits_charset(s: Seq<char>)
    requires
        all_digits(s),
    ensures
        !s.contains(' '),
        !s.contains('/'),
{
    assert(forall|i: int| 0 <= i < s.len() ==> is_digit(#[trigger] s[i]));
    assert(' ' as u32 == 32);
    assert('/' as u32 == 47);
}

} // verus!
