//! Laws of numbers and texts.

use crate::text::{
    ascii_lower, ascii_lower_text, bytes_before, char_index_is_first, chars_of, contains_text,
    decimal, decimal_text, digits_value, ends_with, find_char, has_part, has_prefix,
    has_suffix, is_before, is_digit, is_digits, lower_is, opens_with, parse_number,
    parse_unsigned, same_text, stands_at, starts_with, text_before, text_from, text_to,
    without_plus,
};
use crate::Mode;
use vstd::prelude::*;
use vstd::string::*;
use vstd::utf8::*;

verus! {

/// A number below ten is written as its digit; any other as the number without
/// its last digit, and then that digit.
pub proof fn numbers_are_written_digit_by_digit(n: nat)
    ensures
        n < 10 ==> decimal(n).len() == 1 && decimal(n)[0] as nat == '0' as nat + n,
        n >= 10 ==> decimal(n).drop_last() == decimal(n / 10) && decimal(n).last() as nat
            == '0' as nat + n % 10,
{
    if n >= 10 {
        assert(decimal(n).drop_last() =~= decimal(n / 10));
    }
}

/// A number and the number without its last digit are written alike, but for
/// that digit.
pub proof fn last_digits_are_written_last(n: u64, s: String, t: String)
    requires
        call_ensures(decimal_text, (n,), s),
        call_ensures(decimal_text, ((n / 10) as u64,), t),
    ensures
        s@.len() > 0,
        s@.last() as nat == '0' as nat + n % 10,
        n < 10 ==> s@.len() == 1,
        n >= 10 ==> s@.drop_last() == t@,
{
    numbers_are_written_digit_by_digit(n as nat);
}

/// Reading a number: one digit stands for itself, a further digit counts for
/// ten times what stands before it and its own value, anything that is no digit
/// spoils the number, and so does an empty text or a lone plus. What exceeds
/// the limit is no number.
pub proof fn numbers_are_read_digit_by_digit(
    s: Seq<char>,
    c: char,
    limit: nat,
    v: nat,
    max: nat,
)
    ensures
        parse_unsigned(Seq::empty(), max) is None,
        parse_unsigned(seq!['+'], max) is None,
        '0' <= c <= '9' ==> parse_unsigned(seq![c], max) == (if c as nat - 48 <= max {
            Some((c as nat - 48) as nat)
        } else {
            None
        }),
        '0' <= c <= '9' ==> parse_unsigned(seq!['+', c], max) == parse_unsigned(seq![c], max),
        '0' <= c <= '9' && parse_unsigned(s, limit) == Some(v) ==> parse_unsigned(s.push(c), max)
            == (if v * 10 + (c as nat - 48) <= max {
            Some((v * 10 + (c as nat - 48)) as nat)
        } else {
            None
        }),
        !('0' <= c <= '9') && (s.len() > 0 || c != '+') ==> parse_unsigned(s.push(c), max) is None,
        s.len() > 0 && s != seq!['+'] && (forall|m: nat| #[trigger] parse_unsigned(s, m) is None)
            ==> parse_unsigned(s.push(c), max) is None,
{
    let t = s.push(c);
    let a = without_plus(s);
    let b = without_plus(t);
    assert(without_plus(Seq::<char>::empty()) =~= Seq::empty());
    assert(without_plus(seq!['+']) =~= Seq::empty());
    lemma_one_digit(c, max);
    if s.len() > 0 {
        assert(b =~= a.push(c));
        assert(b.drop_last() =~= a);
        if is_digits(b) {
            assert forall|i: int| 0 <= i < a.len() implies is_digit(#[trigger] a[i]) by {
                assert(b[i] == a[i]);
            }
            assert(is_digit(b[b.len() - 1]));
        }
        if s != seq!['+'] {
            if a.len() == 0 {
                assert(s =~= seq!['+']);
            }
            if forall|m: nat| #[trigger] parse_unsigned(s, m) is None {
                assert(parse_unsigned(s, digits_value(a)) is None);
            }
        }
    } else {
        assert(t =~= seq![c]);
        assert(parse_unsigned(s, limit) is None);
    }
}

proof fn lemma_one_digit(c: char, max: nat)
    ensures
        '0' <= c <= '9' ==> parse_unsigned(seq![c], max) == (if c as nat - 48 <= max {
            Some((c as nat - 48) as nat)
        } else {
            None
        }),
        '0' <= c <= '9' ==> parse_unsigned(seq!['+', c], max) == parse_unsigned(seq![c], max),
        !('0' <= c <= '9') ==> parse_unsigned(seq![c], max) is None,
{
    let one = seq![c];
    assert(without_plus(seq!['+', c]) =~= one);
    assert(one.drop_last() =~= Seq::empty());
    assert(digits_value(one.drop_last()) == 0);
    assert(one[0] == c);
    if '0' <= c <= '9' {
        assert(is_digits(one));
    } else if c == '+' {
        assert(without_plus(one) =~= Seq::empty());
    } else {
        assert(!is_digit(one[0]));
    }
}

/// A number that is read does not exceed the limit, and a higher limit leads
/// to the same number.
pub proof fn numbers_keep_to_the_limit(s: &str, max: u64, r: Option<u64>, wide: Option<u64>)
    requires
        call_ensures(parse_number, (s, max), r),
        call_ensures(parse_number, (s, u64::MAX), wide),
    ensures
        r matches Some(v) ==> v <= max && wide == Some(v),
        wide matches Some(v) ==> (v <= max ==> r == Some(v)),
        r matches Some(v) ==> parse_unsigned(s@, max as nat) == Some(v as nat),
        r is None ==> parse_unsigned(s@, max as nat) is None,
{
}

/// The order of bytes: what two runs have in common at their front does not
/// matter, the first byte that differs decides, and a run comes before its
/// continuations. Texts are ordered by their bytes.
pub proof fn the_first_difference_decides(p: Seq<u8>, a: Seq<u8>, b: Seq<u8>)
    ensures
        bytes_before(p + a, p + b) == bytes_before(a, b),
        a.len() > 0 && b.len() > 0 && a[0] != b[0] ==> (bytes_before(a, b) <==> a[0] < b[0]),
        bytes_before(Seq::empty(), b) <==> b.len() > 0,
        !bytes_before(a, Seq::empty()),
        forall|x: Seq<char>, y: Seq<char>|
            #![trigger text_before(x, y)]
            text_before(x, y) == bytes_before(encode_utf8(x), encode_utf8(y)),
    decreases p.len(),
{
    if p.len() == 0 {
        assert(p + a =~= a);
        assert(p + b =~= b);
    } else {
        the_first_difference_decides(p.drop_first(), a, b);
        assert((p + a).drop_first() =~= p.drop_first() + a);
        assert((p + b).drop_first() =~= p.drop_first() + b);
        assert((p + a)[0] == p[0] && (p + b)[0] == p[0]);
    }
}

/// Taking texts apart and comparing them: what each helper gives back.
pub proof fn texts_are_taken_apart(
    s: &str,
    c: char,
    at: usize,
    chars: Vec<char>,
    place: Option<usize>,
    tail: &str,
    head: &str,
    opens: bool,
)
    requires
        at <= s@.len(),
        call_ensures(chars_of, (s,), chars),
        call_ensures(find_char, (s, c), place),
        call_ensures(text_from, (s, at), tail),
        call_ensures(text_to, (s, at), head),
        call_ensures(opens_with, (s, c), opens),
    ensures
        chars@ == s@,
        head@ + tail@ == s@ && head@.len() == at,
        opens <==> s@.len() > 0 && s@[0] == c,
        match place {
            Some(i) => i < s@.len() && s@[i as int] == c && forall|j: int|
                0 <= j < i ==> #[trigger] s@[j] != c,
            None => forall|j: int| 0 <= j < s@.len() ==> #[trigger] s@[j] != c,
        },
{
    char_index_is_first(s@, c);
    assert(s@.take(at as int) + s@.skip(at as int) =~= s@);
}

/// Comparing texts: what each helper tells.
pub proof fn texts_are_compared(
    a: &str,
    b: &str,
    same: bool,
    before: bool,
    starts: bool,
    ends: bool,
    holds: bool,
    lower: bool,
)
    requires
        call_ensures(same_text, (a, b), same),
        call_ensures(is_before, (a, b), before),
        call_ensures(starts_with, (a, b), starts),
        call_ensures(ends_with, (a, b), ends),
        call_ensures(contains_text, (a, b), holds),
        call_ensures(lower_is, (a, b), lower),
    ensures
        same <==> a@ == b@,
        before == text_before(a@, b@),
        starts <==> b@.len() <= a@.len() && a@.take(b@.len() as int) == b@,
        ends <==> b@.len() <= a@.len() && a@.skip(a@.len() - b@.len()) == b@,
        holds == has_part(a@, b@),
        lower <==> a@.len() == b@.len() && forall|i: int|
            0 <= i < a@.len() ==> #[trigger] b@[i] == (if 'A' <= a@[i] <= 'Z' {
                (a@[i] as u32 + 32) as char
            } else {
                a@[i]
            }),
{
    if b@.len() <= a@.len() {
        assert(a@.subrange(0, b@.len() as int) =~= a@.take(b@.len() as int));
        assert(a@.subrange(a@.len() - b@.len(), a@.len() as int) =~= a@.skip(
            a@.len() - b@.len(),
        ));
    }
    let low = ascii_lower_text(a@);
    if lower {
        assert forall|i: int| 0 <= i < a@.len() implies #[trigger] b@[i] == (if 'A' <= a@[i] <= 'Z' {
            (a@[i] as u32 + 32) as char
        } else {
            a@[i]
        }) by {
            assert(low[i] == b@[i]);
        }
    } else if a@.len() == b@.len() && forall|i: int|
        0 <= i < a@.len() ==> #[trigger] b@[i] == (if 'A' <= a@[i] <= 'Z' {
            (a@[i] as u32 + 32) as char
        } else {
            a@[i]
        }) {
        assert(low =~= b@);
    }
}

/// Where a part stands in a text: with it and what stands before and after it
/// the text is put together again.
pub proof fn parts_put_a_text_together(
    s: Seq<char>,
    p: Seq<char>,
    before: Seq<char>,
    after: Seq<char>,
)
    ensures
        has_prefix(p + after, p),
        has_suffix(before + p, p),
        has_part(before + p + after, p),
        has_prefix(s, p) ==> p.len() <= s.len() && s == p + s.skip(p.len() as int),
        has_suffix(s, p) ==> p.len() <= s.len() && s == s.take(s.len() - p.len()) + p,
        has_part(s, p) ==> exists|at: int|
            0 <= at <= s.len() - p.len() && s == s.take(at) + p + #[trigger] s.skip(at + p.len()),
{
    let x = p + after;
    assert(x.subrange(0, p.len() as int) =~= p);
    let y = before + p;
    assert(y.subrange(y.len() - p.len(), y.len() as int) =~= p);
    let z = before + p + after;
    assert(z.subrange(before.len() as int, (before.len() + p.len()) as int) =~= p);
    assert(stands_at(z, p, before.len() as int));
    if has_prefix(s, p) {
        assert(s =~= s.subrange(0, p.len() as int) + s.skip(p.len() as int));
    }
    if has_suffix(s, p) {
        assert(s =~= s.take(s.len() - p.len()) + s.subrange(s.len() - p.len(), s.len() as int));
    }
    if has_part(s, p) {
        let at = choose|at: int| #[trigger] stands_at(s, p, at);
        assert(s =~= s.take(at) + s.subrange(at, at + p.len()) + s.skip(at + p.len()));
    }
}

proof fn lemma_lower(c: char, small: char, capital: char)
    requires
        'A' <= capital <= 'Z',
        small as u32 == capital as u32 + 32,
    ensures
        ascii_lower(c) == small <==> c == small || c == capital,
{
    if 'A' <= c <= 'Z' {
        let v = (c as u32 + 32) as u32;
        assert((v as char) as u32 == v);
        assert(c as u32 == capital as u32 ==> c == capital);
    }
}

/// A text is the name of the octet mode in any mixture of small and capital
/// letters, and in no other form.
pub proof fn modes_are_read_in_any_case(s: &str, r: Option<Mode>)
    requires
        call_ensures(Mode::parse, (s,), r),
    ensures
        r is Some <==> {
            &&& s@.len() == 5
            &&& s@[0] == 'o' || s@[0] == 'O'
            &&& s@[1] == 'c' || s@[1] == 'C'
            &&& s@[2] == 't' || s@[2] == 'T'
            &&& s@[3] == 'e' || s@[3] == 'E'
            &&& s@[4] == 't' || s@[4] == 'T'
        },
{
    reveal_strlit("octet");
    let low = ascii_lower_text(s@);
    let word = seq!['o', 'c', 't', 'e', 't'];
    assert("octet"@ =~= word);
    assert(r is Some <==> low == word);
    if s@.len() == 5 {
        lemma_lower(s@[0], 'o', 'O');
        lemma_lower(s@[1], 'c', 'C');
        lemma_lower(s@[2], 't', 'T');
        lemma_lower(s@[3], 'e', 'E');
        lemma_lower(s@[4], 't', 'T');
        assert(low =~= word <==> low[0] == 'o' && low[1] == 'c' && low[2] == 't' && low[3] == 'e'
            && low[4] == 't');
    } else {
        assert(low.len() != word.len());
    }
}

/// The name of a mode is the one that requests carry, and it is read as that
/// mode.
pub proof fn mode_names_are_read(m: Mode, name: &'static str, r: Option<Mode>)
    requires
        call_ensures(Mode::as_str, (m,), name),
        call_ensures(Mode::parse, (name,), r),
    ensures
        name@ == seq!['o', 'c', 't', 'e', 't'],
        r == Some(m),
{
    reveal_strlit("octet");
    assert(name@ =~= seq!['o', 'c', 't', 'e', 't']);
    crate::mode_name_reads_back();
}

} // verus!
