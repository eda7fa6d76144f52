use vstd::prelude::*;

verus! {

/// `String::push`: appends one character at the end of the string, as std
/// documents it.
#[verifier::external_body]
pub(crate) fn push_char(s: &mut String, c: char)
    ensures
        final(s)@ == old(s)@.push(c),
{
    s.push(c);
}

/// `c` is one of the ASCII digits `0` to `9`.
pub open spec fn is_digit(c: char) -> bool {
    '0' <= c && c <= '9'
}

/// The number that an ASCII digit stands for.
pub open spec fn digit_value(c: char) -> int {
    c as int - '0' as int
}

/// The ASCII digit that stands for `d`, for `d` in 0 to 9.
pub open spec fn digit_char(d: int) -> char {
    (d + '0' as int) as char
}

/// Every character of `d` is an ASCII digit.
pub open spec fn all_digits(d: Seq<char>) -> bool {
    forall|i: int| 0 <= i < d.len() ==> is_digit(#[trigger] d[i])
}

/// The number that a string of decimal digits stands for (0 for no digits).
pub open spec fn decimal_value(d: Seq<char>) -> int
    decreases d.len(),
{
    if d.len() == 0 {
        0
    } else {
        decimal_value(d.drop_last()) * 10 + digit_value(d.last())
    }
}

/// The decimal text of `n`, without leading zeros, as `Display` writes an
/// unsigned integer.
pub open spec fn decimal_text(n: nat) -> Seq<char>
    decreases n,
{
    if n < 10 {
        seq![digit_char(n as int)]
    } else {
        decimal_text(n / 10).push(digit_char((n % 10) as int))
    }
}

/// The digits of a number's text, after an optional leading `+`.
pub open spec fn unsigned_digits(p: Seq<char>) -> Seq<char> {
    if p.len() > 0 && p[0] == '+' {
        p.drop_first()
    } else {
        p
    }
}

/// What `u8::from_str` reads from the text `p`: an optional `+`, then at
/// least one decimal digit, standing for at most 255.
pub open spec fn parse_u8(p: Seq<char>) -> Option<u8> {
    let d = unsigned_digits(p);
    if d.len() > 0 && all_digits(d) && decimal_value(d) <= 255 {
        Some(decimal_value(d) as u8)
    } else {
        None
    }
}

/// The ASCII digit for `d`, computed.
pub(crate) fn digit_to_char(d: u32) -> (c: char)
    requires
        d < 10,
    ensures
        c == digit_char(d as int),
        is_digit(c),
        digit_value(c) == d,
{
    let c = ((d as u8) + 48u8) as char;
    c
}

/// Appends the decimal text of `n`.
pub(crate) fn push_decimal(s: &mut String, n: u32)
    ensures
        final(s)@ == old(s)@ + decimal_text(n as nat),
    decreases n,
{
    if n >= 10 {
        push_decimal(s, n / 10);
    }
    push_char(s, digit_to_char(n % 10));
    assert(s@ =~= old(s)@ + decimal_text(n as nat));
}

/// Digits appended one at a time build up their value.
pub proof fn lemma_decimal_value_push(d: Seq<char>, c: char)
    ensures
        decimal_value(d.push(c)) == decimal_value(d) * 10 + digit_value(c),
{
    assert(d.push(c).drop_last() =~= d);
}

/// The decimal text of a number is made of digits, is not empty, and reads
/// back as the number.
pub proof fn lemma_decimal_text_reads_back(n: nat)
    ensures
        decimal_text(n).len() > 0,
        all_digits(decimal_text(n)),
        decimal_value(decimal_text(n)) == n,
    decreases n,
{
    if n < 10 {
        assert(decimal_text(n) =~= Seq::<char>::empty().push(digit_char(n as int)));
        lemma_decimal_value_push(Seq::<char>::empty(), digit_char(n as int));
        assert(decimal_value(Seq::<char>::empty()) == 0);
        assert(digit_value(digit_char(n as int)) == n);
    } else {
        assert(digit_value(digit_char((n % 10) as int)) == n % 10);
        lemma_decimal_text_reads_back(n / 10);
        lemma_decimal_value_push(decimal_text(n / 10), digit_char((n % 10) as int));
        let t = decimal_text(n);
        assert forall|i: int| 0 <= i < t.len() implies is_digit(#[trigger] t[i]) by {
            if i < t.len() - 1 {
                assert(t[i] == decimal_text(n / 10)[i]);
            }
        }
    }
}

/// The decimal text of a byte reads back as that byte.
pub proof fn lemma_parse_u8_of_decimal_text(n: u8)
    ensures
        parse_u8(decimal_text(n as nat)) == Some(n),
{
    lemma_decimal_text_reads_back(n as nat);
    let t = decimal_text(n as nat);
    assert(is_digit(t[0]));
    assert(unsigned_digits(t) == t);
}


/// Whether two texts are the same, character by character.
pub fn same_text(a: &str, b: &str) -> (r: bool)
    ensures
        r == (a@ == b@),
{
    let n = a.unicode_len();
    let m = b.unicode_len();
    if n != m {
        return false;
    }
    let mut i: usize = 0;
    while i < n
        invariant
            n == a@.len(),
            n == b@.len(),
            i <= n,
            forall|j: int| 0 <= j < i ==> a@[j] == b@[j],
        decreases n - i,
    {
        if a.get_char(i) != b.get_char(i) {
            return false;
        }
        i = i + 1;
    }
    assert(a@ =~= b@);
    true
}


/// The decimal text of a number has no leading zero: it is "0" for zero and
/// starts with a digit other than '0' otherwise; with
/// [`lemma_decimal_text_reads_back`] this fixes it as the usual decimal
/// writing of the number.
pub proof fn lemma_decimal_text_canonical(n: nat)
    ensures
        n == 0 ==> decimal_text(n) == seq!['0'],
        n > 0 ==> decimal_text(n)[0] != '0',
        n < 10 ==> decimal_text(n).len() == 1,
        n >= 10 ==> decimal_text(n) == decimal_text(n / 10).push(decimal_text(n % 10)[0]),
    decreases n,
{
    if n >= 10 {
        lemma_decimal_text_canonical(n / 10);
        lemma_decimal_text_reads_back(n / 10);
        assert(decimal_text(n)[0] == decimal_text(n / 10)[0]);
    } else {
        assert(digit_value(digit_char(n as int)) == n);
    }
}


/// A leading zero changes neither whether a text is made of digits nor its
/// value.
proof fn lemma_leading_zero(t: Seq<char>)
    ensures
        decimal_value(seq!['0'] + t) == decimal_value(t),
        all_digits(seq!['0'] + t) == all_digits(t),
    decreases t.len(),
{
    let z = seq!['0'] + t;
    if t.len() == 0 {
        assert(z =~= Seq::<char>::empty().push('0'));
        lemma_decimal_value_push(Seq::<char>::empty(), '0');
        assert(decimal_value(Seq::<char>::empty()) == 0);
    } else {
        lemma_leading_zero(t.drop_last());
        assert(z.drop_last() =~= seq!['0'] + t.drop_last());
        assert(z.last() == t.last());
    }
    if all_digits(t) {
        assert forall|i: int| 0 <= i < z.len() implies is_digit(#[trigger] z[i]) by {
            if i > 0 {
                assert(z[i] == t[i - 1]);
            }
        }
    }
    if all_digits(z) {
        assert forall|i: int| 0 <= i < t.len() implies is_digit(#[trigger] t[i]) by {
            assert(z[i + 1] == t[i]);
        }
    }
}

/// How a byte's text reads: the decimal text of a byte reads as it, also
/// after a '+' sign and after a leading zero; the text of a number above 255
/// does not read, nor the empty text, nor a lone '+', nor any text with a
/// character other than an ASCII digit, but for one '+' in front.
pub proof fn lemma_parse_u8_laws(n: nat, p: Seq<char>)
    ensures
        n <= 255 ==> parse_u8(decimal_text(n)) == Some(n as u8),
        n <= 255 ==> parse_u8(seq!['+'] + decimal_text(n)) == Some(n as u8),
        n <= 255 ==> parse_u8(seq!['0'] + decimal_text(n)) == Some(n as u8),
        n > 255 ==> parse_u8(decimal_text(n)) is None,
        parse_u8(Seq::empty()) is None,
        parse_u8(seq!['+']) is None,
        (exists|i: int|
            0 <= i < p.len() && !('0' <= #[trigger] p[i] && p[i] <= '9') && !(i == 0 && p[i] == '+'))
            ==> parse_u8(p) is None,
{
    lemma_decimal_text_reads_back(n);
    let t = decimal_text(n);
    assert(is_digit(t[0]));
    assert(unsigned_digits(t) == t);
    assert((seq!['+'] + t).drop_first() =~= t);
    lemma_leading_zero(t);
    assert((seq!['0'] + t)[0] == '0');
    assert(seq!['+'].drop_first() =~= Seq::<char>::empty());
    if exists|i: int|
        0 <= i < p.len() && !('0' <= #[trigger] p[i] && p[i] <= '9') && !(i == 0 && p[i] == '+') {
        let i = choose|i: int|
            0 <= i < p.len() && !('0' <= #[trigger] p[i] && p[i] <= '9') && !(i == 0 && p[i] == '+');
        let d = unsigned_digits(p);
        if p.len() > 0 && p[0] == '+' {
            assert(d[i - 1] == p[i]);
            assert(!is_digit(d[i - 1]));
        } else {
            assert(!is_digit(d[i]));
        }
    }
}

} // verus!
