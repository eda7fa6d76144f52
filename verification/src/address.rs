use vstd::prelude::*;

use crate::text::{
    all_digits, decimal_text, decimal_value, digit_value, is_digit, lemma_decimal_text_reads_back,
    lemma_decimal_value_push, lemma_parse_u8_of_decimal_text, parse_u8, push_char, push_decimal,
    unsigned_digits,
};

verus! {

/// The pieces of `s` between dots, as `str::split('.')` gives them: one more
/// piece than there are dots, empty pieces included.
#[verifier::opaque]
pub open spec fn split_dots(s: Seq<char>) -> Seq<Seq<char>>
    decreases s.len(),
{
    if s.len() == 0 {
        seq![Seq::empty()]
    } else {
        let prev = split_dots(s.drop_last());
        if s.last() == '.' {
            prev.push(Seq::empty())
        } else {
            prev.update(prev.len() - 1, prev.last().push(s.last()))
        }
    }
}

/// The four numbers of a dotted address: the text is cut at every dot, every
/// piece must read as a byte, and there must be at least four pieces; the
/// numbers are those of the first four.
pub open spec fn parse_quad(s: Seq<char>) -> Option<Seq<u8>> {
    let pieces = split_dots(s);
    if pieces.len() >= 4 && forall|i: int|
        0 <= i < pieces.len() ==> (#[trigger] parse_u8(pieces[i])) is Some {
        Some(Seq::new(4, |i: int| parse_u8(pieces[i])->0))
    } else {
        None
    }
}

/// Four bytes written as a dotted address.
pub open spec fn dotted(a: Seq<u8>) -> Seq<char> {
    decimal_text(a[0] as nat) + seq!['.'] + decimal_text(a[1] as nat) + seq!['.'] + decimal_text(
        a[2] as nat,
    ) + seq!['.'] + decimal_text(a[3] as nat)
}

/// Each of four bytes of `a` plus the same byte of `b`, wrapping at 256.
pub open spec fn add_bytes(a: Seq<u8>, b: Seq<u8>) -> Seq<u8> {
    Seq::new(4, |i: int| ((a[i] + b[i]) % 256) as u8)
}

/// Each of four bytes of `a` minus the same byte of `b`, wrapping at 256.
pub open spec fn sub_bytes(a: Seq<u8>, b: Seq<u8>) -> Seq<u8> {
    Seq::new(4, |i: int| ((a[i] - b[i]) % 256) as u8)
}

/// The address that `from` reaches with `key`, if both read as addresses.
pub open spec fn dest_text(from: Seq<char>, key: Seq<char>) -> Option<Seq<char>> {
    match (parse_quad(from), parse_quad(key)) {
        (Some(f), Some(k)) => Some(dotted(add_bytes(f, k))),
        _ => None,
    }
}

/// The key that takes `from` to `to`, if both read as addresses.
pub open spec fn key_text(from: Seq<char>, to: Seq<char>) -> Option<Seq<char>> {
    match (parse_quad(from), parse_quad(to)) {
        (Some(f), Some(t)) => Some(dotted(sub_bytes(t, f))),
        _ => None,
    }
}

/// Each of eight segments of `a` exclusive-or the same segment of `b`.
pub open spec fn xor_segments(a: Seq<u16>, b: Seq<u16>) -> Seq<u16> {
    Seq::new(8, |i: int| a[i] ^ b[i])
}

/// The split of a text has at least one piece.
pub proof fn lemma_split_dots_nonempty(s: Seq<char>)
    ensures
        split_dots(s).len() >= 1,
    decreases s.len(),
{
    reveal(split_dots);
    if s.len() > 0 {
        lemma_split_dots_nonempty(s.drop_last());
    }
}

/// Text without dots, appended, extends the last piece.
pub proof fn lemma_split_dots_append_plain(t: Seq<char>, z: Seq<char>)
    requires
        forall|i: int| 0 <= i < z.len() ==> #[trigger] z[i] != '.',
    ensures
        split_dots(t + z) == split_dots(t).update(
            split_dots(t).len() - 1,
            split_dots(t).last() + z,
        ),
    decreases z.len(),
{
    reveal(split_dots);
    lemma_split_dots_nonempty(t);
    if z.len() == 0 {
        assert(t + z =~= t);
        assert(split_dots(t).last() + z =~= split_dots(t).last());
        assert(split_dots(t).update(split_dots(t).len() - 1, split_dots(t).last())
            =~= split_dots(t));
    } else {
        let z0 = z.drop_last();
        lemma_split_dots_append_plain(t, z0);
        assert((t + z).drop_last() =~= t + z0);
        assert((t + z).last() == z.last());
        assert(z[z.len() - 1] != '.');
        let big = split_dots(t);
        let prev = split_dots(t + z0);
        lemma_split_dots_nonempty(t + z0);
        assert(prev.len() == big.len());
        assert(prev.last() == big.last() + z0);
        assert((big.last() + z0).push(z.last()) =~= big.last() + z);
        assert(split_dots(t + z) == prev.update(prev.len() - 1, prev.last().push(z.last())));
        assert(split_dots(t + z) =~= split_dots(t).update(
            split_dots(t).len() - 1,
            split_dots(t).last() + z,
        ));
    }
}

/// A dot, appended, starts a new empty piece.
pub proof fn lemma_split_dots_append_dot(t: Seq<char>)
    ensures
        split_dots(t + seq!['.']) == split_dots(t).push(Seq::empty()),
{
    reveal(split_dots);
    assert((t + seq!['.']).drop_last() =~= t);
}

/// The decimal text of a byte holds no dot.
proof fn lemma_decimal_text_no_dot(n: nat)
    ensures
        forall|i: int| 0 <= i < decimal_text(n).len() ==> #[trigger] decimal_text(n)[i] != '.',
{
    lemma_decimal_text_reads_back(n);
    assert forall|i: int| 0 <= i < decimal_text(n).len() implies #[trigger] decimal_text(n)[i]
        != '.' by {
        assert(is_digit(decimal_text(n)[i]));
    }
}

/// A dotted address splits into the texts of its four bytes.
pub proof fn lemma_split_dotted(a: Seq<u8>)
    requires
        a.len() == 4,
    ensures
        split_dots(dotted(a)) == seq![
            decimal_text(a[0] as nat),
            decimal_text(a[1] as nat),
            decimal_text(a[2] as nat),
            decimal_text(a[3] as nat),
        ],
{
    let t0 = decimal_text(a[0] as nat);
    let t1 = decimal_text(a[1] as nat);
    let t2 = decimal_text(a[2] as nat);
    let t3 = decimal_text(a[3] as nat);
    lemma_decimal_text_no_dot(a[0] as nat);
    lemma_decimal_text_no_dot(a[1] as nat);
    lemma_decimal_text_no_dot(a[2] as nat);
    lemma_decimal_text_no_dot(a[3] as nat);
    let e = Seq::<char>::empty();
    assert(split_dots(e) == seq![Seq::<char>::empty()]) by {
        reveal(split_dots);
    }
    lemma_split_dots_append_plain(e, t0);
    assert(e + t0 =~= t0);
    assert(split_dots(t0) =~= seq![t0]);
    let s1 = t0 + seq!['.'];
    lemma_split_dots_append_dot(t0);
    lemma_split_dots_append_plain(s1, t1);
    assert(split_dots(s1 + t1) =~= seq![t0, t1]);
    let s2 = s1 + t1 + seq!['.'];
    lemma_split_dots_append_dot(s1 + t1);
    lemma_split_dots_append_plain(s2, t2);
    assert(split_dots(s2 + t2) =~= seq![t0, t1, t2]);
    let s3 = s2 + t2 + seq!['.'];
    lemma_split_dots_append_dot(s2 + t2);
    lemma_split_dots_append_plain(s3, t3);
    assert(split_dots(s3 + t3) =~= seq![t0, t1, t2, t3]);
    assert(s3 + t3 =~= dotted(a));
}

/// A dotted address reads back as its four bytes.
pub proof fn lemma_parse_dotted(a: Seq<u8>)
    requires
        a.len() == 4,
    ensures
        parse_quad(dotted(a)) == Some(a),
{
    lemma_split_dotted(a);
    lemma_parse_u8_of_decimal_text(a[0]);
    lemma_parse_u8_of_decimal_text(a[1]);
    lemma_parse_u8_of_decimal_text(a[2]);
    lemma_parse_u8_of_decimal_text(a[3]);
    let pieces = split_dots(dotted(a));
    assert forall|i: int| 0 <= i < pieces.len() implies (#[trigger] parse_u8(pieces[i])) is Some by {
    }
    assert(Seq::new(4, |i: int| parse_u8(pieces[i])->0) =~= a);
}

/// Adding then subtracting the same bytes gives back the first bytes, and
/// subtracting then adding gives back the second.
proof fn lemma_bytes_add_sub(f: Seq<u8>, k: Seq<u8>)
    requires
        f.len() == 4,
        k.len() == 4,
    ensures
        sub_bytes(add_bytes(f, k), f) == k,
        add_bytes(f, sub_bytes(k, f)) == k,
{
    assert forall|i: int| 0 <= i < 4 implies #[trigger] sub_bytes(add_bytes(f, k), f)[i] == k[i]
        by {
        let x = f[i];
        let y = k[i];
        let s = ((x + y) % 256) as u8;
        assert(s == add_bytes(f, k)[i]);
        assert(((s - x) % 256) as u8 == y) by (bit_vector)
            requires
                s == ((x + y) % 256) as u8,
        ;
    }
    assert forall|i: int| 0 <= i < 4 implies #[trigger] add_bytes(f, sub_bytes(k, f))[i] == k[i]
        by {
        let x = f[i];
        let y = k[i];
        let d = ((y - x) % 256) as u8;
        assert(d == sub_bytes(k, f)[i]);
        assert(((x + d) % 256) as u8 == y) by (bit_vector)
            requires
                d == ((y - x) % 256) as u8,
        ;
    }
    assert(sub_bytes(add_bytes(f, k), f) =~= k);
    assert(add_bytes(f, sub_bytes(k, f)) =~= k);
}

/// The key that takes an address to the destination that a key gives is that
/// key, written as a dotted address.
pub proof fn lemma_key_of_dest(from: Seq<char>, key: Seq<char>)
    requires
        parse_quad(from) is Some,
        parse_quad(key) is Some,
    ensures
        dest_text(from, key) is Some,
        key_text(from, dest_text(from, key)->0) == Some(dotted(parse_quad(key)->0)),
{
    let f = parse_quad(from)->0;
    let k = parse_quad(key)->0;
    let d = add_bytes(f, k);
    assert(dest_text(from, key) == Some(dotted(d)));
    lemma_parse_dotted(d);
    lemma_bytes_add_sub(f, k);
    assert(key_text(from, dotted(d)) == Some(dotted(sub_bytes(d, f))));
}

/// The destination that an address reaches with the key computed for a
/// destination is that destination, written as a dotted address.
pub proof fn lemma_dest_of_key(from: Seq<char>, to: Seq<char>)
    requires
        parse_quad(from) is Some,
        parse_quad(to) is Some,
    ensures
        key_text(from, to) is Some,
        dest_text(from, key_text(from, to)->0) == Some(dotted(parse_quad(to)->0)),
{
    let f = parse_quad(from)->0;
    let t = parse_quad(to)->0;
    let k = sub_bytes(t, f);
    assert(key_text(from, to) == Some(dotted(k)));
    lemma_parse_dotted(k);
    lemma_bytes_add_sub(f, t);
    assert(dest_text(from, dotted(k)) == Some(dotted(add_bytes(f, k))));
}

/// Exclusive-or with the same segments twice gives back the segments: the key
/// computed for a destination reached with a key is that key.
pub proof fn lemma_xor_key_of_dest(from: Seq<u16>, key: Seq<u16>)
    requires
        from.len() == 8,
        key.len() == 8,
    ensures
        xor_segments(from, xor_segments(from, key)) == key,
{
    assert forall|i: int| 0 <= i < 8 implies #[trigger] xor_segments(
        from,
        xor_segments(from, key),
    )[i] == key[i] by {
        let a = from[i];
        let b = key[i];
        assert(a ^ (a ^ b) == b) by (bit_vector);
    }
    assert(xor_segments(from, xor_segments(from, key)) =~= key);
}


/// What is known of the piece `p` read so far: whether it began with `+`,
/// how many characters follow that sign, whether one of them is not a digit,
/// and, if all are digits, whether their value is past 255 and otherwise that
/// value.
spec fn piece_summary(p: Seq<char>, plus: bool, ndigits: nat, bad: bool, over: bool, val: u32) -> bool {
    &&& plus == (p.len() > 0 && p[0] == '+')
    &&& ndigits == unsigned_digits(p).len()
    &&& bad == !all_digits(unsigned_digits(p))
    &&& !bad ==> over == (decimal_value(unsigned_digits(p)) > 255)
    &&& !bad && !over ==> val == decimal_value(unsigned_digits(p))
}

/// The summary of a piece decides whether it reads as a byte.
proof fn lemma_summary_decides(p: Seq<char>, plus: bool, ndigits: nat, bad: bool, over: bool, val: u32)
    requires
        piece_summary(p, plus, ndigits, bad, over, val),
    ensures
        (parse_u8(p) is Some) == (!bad && !over && ndigits > 0),
        parse_u8(p) is Some ==> parse_u8(p)->0 == val,
{
}

/// Extending a piece by a character that is not a dot keeps its summary.
proof fn lemma_summary_step(
    p: Seq<char>,
    c: char,
    plus: bool,
    ndigits: nat,
    bad: bool,
    over: bool,
    val: u32,
)
    requires
        piece_summary(p, plus, ndigits, bad, over, val),
        !(p.len() == 0 && c == '+'),
    ensures
        unsigned_digits(p.push(c)) == unsigned_digits(p).push(c),
        p.push(c).len() > 0 && (p.push(c)[0] == '+') == plus,
        all_digits(unsigned_digits(p.push(c))) == (!bad && is_digit(c)),
        decimal_value(unsigned_digits(p.push(c))) == decimal_value(unsigned_digits(p)) * 10
            + digit_value(c),
{
    if p.len() > 0 && p[0] == '+' {
        assert(p.push(c).drop_first() =~= p.drop_first().push(c));
    } else {
        assert(p.len() == 0 ==> p.push(c) =~= seq![c]);
    }
    let d = unsigned_digits(p);
    let d2 = unsigned_digits(p.push(c));
    assert(d2 =~= d.push(c));
    assert(all_digits(d2) == (all_digits(d) && is_digit(c))) by {
        if all_digits(d) && is_digit(c) {
            assert forall|i: int| 0 <= i < d2.len() implies is_digit(#[trigger] d2[i]) by {
                if i < d.len() {
                    assert(d2[i] == d[i]);
                }
            }
        }
        if all_digits(d2) {
            assert(is_digit(d2[d.len() as int]));
            assert forall|i: int| 0 <= i < d.len() implies is_digit(#[trigger] d[i]) by {
                assert(d2[i] == d[i]);
            }
        }
    }
    lemma_decimal_value_push(d, c);
}

/// The split of a text one character longer.
proof fn lemma_split_dots_step(s: Seq<char>, i: int)
    requires
        0 <= i < s.len(),
    ensures
        s[i] == '.' ==> split_dots(s.take(i + 1)) == split_dots(s.take(i)).push(Seq::empty()),
        s[i] != '.' ==> split_dots(s.take(i + 1)) == split_dots(s.take(i)).update(
            split_dots(s.take(i)).len() - 1,
            split_dots(s.take(i)).last().push(s[i]),
        ),
{
    reveal(split_dots);
    assert(s.take(i + 1).drop_last() =~= s.take(i));
    assert(s.take(i + 1).last() == s[i]);
}

/// Reads a dotted address: `None` when a piece between dots does not read as
/// a byte or there are fewer than four pieces, else the first four bytes.
pub fn parse_dotted(s: &str) -> (r: Option<[u8; 4]>)
    ensures
        match r {
            Some(a) => parse_quad(s@) == Some(a@),
            None => parse_quad(s@) is None,
        },
{
    let n = s.unicode_len();
    let mut octets: [u8; 4] = [0, 0, 0, 0];
    let mut done: usize = 0;
    let mut all_ok = true;
    let mut plus = false;
    let mut ndigits: usize = 0;
    let mut bad = false;
    let mut over = false;
    let mut val: u32 = 0;
    let mut i: usize = 0;
    let ghost mut pieces: Seq<Seq<char>> = seq![Seq::empty()];
    assert(pieces == split_dots(s@.take(0))) by {
        reveal(split_dots);
        assert(s@.take(0) =~= Seq::<char>::empty());
    }
    while i < n
        invariant
            n == s@.len(),
            i <= n,
            done <= i,
            ndigits <= i,
            pieces == split_dots(s@.take(i as int)),
            pieces.len() == done + 1,
            all_ok == (forall|j: int| 0 <= j < done ==> (#[trigger] parse_u8(pieces[j])) is Some),
            all_ok ==> forall|j: int|
                0 <= j < done && j < 4 ==> octets[j] == (#[trigger] parse_u8(pieces[j]))->0,
            piece_summary(pieces.last(), plus, ndigits as nat, bad, over, val),
        decreases n - i,
    {
        let c = s.get_char(i);
        proof {
            lemma_split_dots_step(s@, i as int);
        }
        let ghost old_pieces = pieces;
        if c == '.' {
            proof {
                lemma_summary_decides(pieces.last(), plus, ndigits as nat, bad, over, val);
            }
            let ok = !bad && !over && ndigits > 0;
            if ok && done < 4 {
                octets[done] = val as u8;
            }
            all_ok = all_ok && ok;
            done = done + 1;
            plus = false;
            ndigits = 0;
            bad = false;
            over = false;
            val = 0;
            proof {
                pieces = pieces.push(Seq::empty());
                assert(decimal_value(Seq::<char>::empty()) == 0) by {
                    reveal_with_fuel(decimal_value, 1);
                }
                assert(pieces[done - 1] == old_pieces.last());
                assert forall|j: int| 0 <= j < done - 1 implies #[trigger] parse_u8(pieces[j])
                    == parse_u8(old_pieces[j]) by {
                    assert(pieces[j] == old_pieces[j]);
                }
                if all_ok {
                    assert forall|j: int| 0 <= j < done implies (#[trigger] parse_u8(
                        pieces[j],
                    )) is Some by {
                        if j < done - 1 {
                            assert(parse_u8(old_pieces[j]) is Some);
                        }
                    }
                } else {
                    if old_pieces.len() > 0 && !(parse_u8(old_pieces.last()) is Some) {
                        assert(!(parse_u8(pieces[done - 1]) is Some));
                    } else {
                        let j = choose|j: int|
                            0 <= j < done - 1 && !(#[trigger] parse_u8(old_pieces[j]) is Some);
                        assert(!(parse_u8(pieces[j]) is Some));
                    }
                }
            }
        } else {
            let cur = Ghost(pieces.last());
            if !plus && ndigits == 0 && c == '+' {
                plus = true;
                proof {
                    assert(cur@.len() == 0);
                    assert(cur@.push(c) =~= seq!['+']);
                    assert(unsigned_digits(seq!['+']) =~= Seq::<char>::empty());
                    assert(decimal_value(Seq::<char>::empty()) == 0);
                }
            } else {
                proof {
                    assert(cur@.len() == ndigits + (if plus { 1int } else { 0int }));
                    lemma_summary_step(cur@, c, plus, ndigits as nat, bad, over, val);
                }
                ndigits = ndigits + 1;
                if !('0' <= c && c <= '9') {
                    bad = true;
                } else if !bad && !over {
                    let d = (c as u32) - 48;
                    val = val * 10 + d;
                    if val > 255 {
                        over = true;
                    }
                }
            }
            proof {
                pieces = pieces.update(pieces.len() - 1, pieces.last().push(c));
                assert forall|j: int| 0 <= j < done implies #[trigger] parse_u8(pieces[j])
                    == parse_u8(old_pieces[j]) by {
                    assert(pieces[j] == old_pieces[j]);
                }
                if all_ok {
                    assert forall|j: int| 0 <= j < done implies (#[trigger] parse_u8(
                        pieces[j],
                    )) is Some by {
                        assert(parse_u8(old_pieces[j]) is Some);
                    }
                } else {
                    let j = choose|j: int|
                        0 <= j < done && !(#[trigger] parse_u8(old_pieces[j]) is Some);
                    assert(!(parse_u8(pieces[j]) is Some));
                }
            }
        }
        i = i + 1;
    }
    proof {
        lemma_summary_decides(pieces.last(), plus, ndigits as nat, bad, over, val);
        assert(s@.take(n as int) =~= s@);
    }
    let last_ok = !bad && !over && ndigits > 0;
    if !(all_ok && last_ok && done >= 3) {
        proof {
            if pieces.len() >= 4 && forall|j: int|
                0 <= j < pieces.len() ==> (#[trigger] parse_u8(pieces[j])) is Some {
                assert(parse_u8(pieces[pieces.len() - 1]) is Some);
            }
        }
        return None;
    }
    if done == 3 {
        octets[3] = val as u8;
    }
    proof {
        assert forall|j: int| 0 <= j < pieces.len() implies (#[trigger] parse_u8(pieces[j])) is Some by {
            if j < done {
            } else {
                assert(j == pieces.len() - 1);
            }
        }
        assert(octets@ =~= Seq::new(4, |k: int| parse_u8(pieces[k])->0));
    }
    Some(octets)
}


/// Writes four bytes as a dotted address.
pub fn format_dotted(a: &[u8; 4]) -> (s: String)
    ensures
        s@ == dotted(a@),
{
    let mut s = String::new();
    push_decimal(&mut s, a[0] as u32);
    push_char(&mut s, '.');
    push_decimal(&mut s, a[1] as u32);
    push_char(&mut s, '.');
    push_decimal(&mut s, a[2] as u32);
    push_char(&mut s, '.');
    push_decimal(&mut s, a[3] as u32);
    assert(s@ =~= dotted(a@));
    s
}

/// The destination that the address `from` reaches with `key`: each byte of
/// `from` plus the same byte of `key`, wrapping at 256. `None` when either
/// text does not read as a dotted address.
pub fn eg_encryption(from: &str, key: &str) -> (r: Option<String>)
    ensures
        match r {
            Some(t) => dest_text(from@, key@) == Some(t@),
            None => dest_text(from@, key@) is None,
        },
{
    let f = match parse_dotted(from) {
        Some(f) => f,
        None => return None,
    };
    let k = match parse_dotted(key) {
        Some(k) => k,
        None => return None,
    };
    let mut d: [u8; 4] = [0, 0, 0, 0];
    let mut i: usize = 0;
    while i < 4
        invariant
            i <= 4,
            forall|j: int| 0 <= j < i ==> #[trigger] d[j] == add_bytes(f@, k@)[j],
        decreases 4 - i,
    {
        d[i] = f[i].wrapping_add(k[i]);
        i = i + 1;
    }
    assert(d@ =~= add_bytes(f@, k@));
    Some(format_dotted(&d))
}

/// The key that takes the address `from` to the address `to`: each byte of
/// `to` minus the same byte of `from`, wrapping at 256. `None` when either
/// text does not read as a dotted address.
pub fn day2_task2(from: &str, to: &str) -> (r: Option<String>)
    ensures
        match r {
            Some(t) => key_text(from@, to@) == Some(t@),
            None => key_text(from@, to@) is None,
        },
{
    let f = match parse_dotted(from) {
        Some(f) => f,
        None => return None,
    };
    let t = match parse_dotted(to) {
        Some(t) => t,
        None => return None,
    };
    let mut d: [u8; 4] = [0, 0, 0, 0];
    let mut i: usize = 0;
    while i < 4
        invariant
            i <= 4,
            forall|j: int| 0 <= j < i ==> #[trigger] d[j] == sub_bytes(t@, f@)[j],
        decreases 4 - i,
    {
        d[i] = t[i].wrapping_sub(f[i]);
        i = i + 1;
    }
    assert(d@ =~= sub_bytes(t@, f@));
    Some(format_dotted(&d))
}

/// Each segment of `a` exclusive-or the same segment of `b`.
fn xor8(a: &[u16; 8], b: &[u16; 8]) -> (r: [u16; 8])
    ensures
        r@ == xor_segments(a@, b@),
{
    let mut r: [u16; 8] = [0, 0, 0, 0, 0, 0, 0, 0];
    let mut i: usize = 0;
    while i < 8
        invariant
            i <= 8,
            forall|j: int| 0 <= j < i ==> #[trigger] r[j] == a[j] ^ b[j],
        decreases 8 - i,
    {
        r[i] = a[i] ^ b[i];
        i = i + 1;
    }
    assert(r@ =~= xor_segments(a@, b@));
    r
}

/// The destination that the IPv6 address with segments `from` reaches with
/// the key `key`: segment by segment exclusive-or.
pub fn v6_dest(from: &[u16; 8], key: &[u16; 8]) -> (r: [u16; 8])
    ensures
        r@ == xor_segments(from@, key@),
{
    xor8(from, key)
}

/// The key that takes the IPv6 address with segments `from` to the one with
/// segments `to`: segment by segment exclusive-or.
pub fn v6_key(from: &[u16; 8], to: &[u16; 8]) -> (r: [u16; 8])
    ensures
        r@ == xor_segments(from@, to@),
{
    xor8(from, to)
}


/// Exclusive-or of segments, segment by segment: with an all-zero key the
/// address comes back unchanged, the two operands can be swapped, an address
/// taken with itself gives all zeros, and each result segment is that of the
/// two segments at the same place.
pub proof fn lemma_xor_segments_laws(a: Seq<u16>, b: Seq<u16>)
    requires
        a.len() == 8,
        b.len() == 8,
    ensures
        xor_segments(a, Seq::new(8, |i: int| 0u16)) == a,
        xor_segments(a, b) == xor_segments(b, a),
        xor_segments(a, a) == Seq::new(8, |i: int| 0u16),
        xor_segments(a, b).len() == 8,
        forall|i: int| 0 <= i < 8 ==> #[trigger] xor_segments(a, b)[i] == a[i] ^ b[i],
{
    let z = Seq::new(8, |i: int| 0u16);
    assert forall|i: int| 0 <= i < 8 implies #[trigger] xor_segments(a, z)[i] == a[i] by {
        let x = a[i];
        assert(x ^ 0u16 == x) by (bit_vector);
    }
    assert(xor_segments(a, z) =~= a);
    assert forall|i: int| 0 <= i < 8 implies #[trigger] xor_segments(a, b)[i] == xor_segments(b, a)[i] by {
        let x = a[i];
        let y = b[i];
        assert(x ^ y == y ^ x) by (bit_vector);
    }
    assert(xor_segments(a, b) =~= xor_segments(b, a));
    assert forall|i: int| 0 <= i < 8 implies #[trigger] xor_segments(a, a)[i] == z[i] by {
        let x = a[i];
        assert(x ^ x == 0u16) by (bit_vector);
    }
    assert(xor_segments(a, a) =~= z);
}

/// Byte arithmetic of addresses: adding an all-zero key keeps the address,
/// subtracting an address from itself gives all zeros, and each byte of a
/// sum or difference is that of the two bytes at the same place, taken
/// modulo 256.
pub proof fn lemma_byte_arith_laws(a: Seq<u8>, b: Seq<u8>)
    requires
        a.len() == 4,
        b.len() == 4,
    ensures
        add_bytes(a, Seq::new(4, |i: int| 0u8)) == a,
        sub_bytes(a, a) == Seq::new(4, |i: int| 0u8),
        add_bytes(a, b) == add_bytes(b, a),
        forall|i: int| 0 <= i < 4 ==> #[trigger] add_bytes(a, b)[i] as int == (a[i] + b[i]) % 256,
        forall|i: int| 0 <= i < 4 ==> #[trigger] sub_bytes(a, b)[i] as int == (a[i] - b[i]) % 256,
{
    assert(add_bytes(a, Seq::new(4, |i: int| 0u8)) =~= a);
    assert(sub_bytes(a, a) =~= Seq::new(4, |i: int| 0u8));
    assert(add_bytes(a, b) =~= add_bytes(b, a));
}


/// Pieces of text joined with a dot between each two.
pub open spec fn join_dots(pieces: Seq<Seq<char>>) -> Seq<char>
    decreases pieces.len(),
{
    if pieces.len() == 0 {
        Seq::empty()
    } else if pieces.len() == 1 {
        pieces[0]
    } else {
        join_dots(pieces.drop_last()) + seq!['.'] + pieces.last()
    }
}

/// Extending the last piece extends the joined text.
proof fn lemma_join_dots_extend_last(ps: Seq<Seq<char>>, c: char)
    requires
        ps.len() >= 1,
    ensures
        join_dots(ps.update(ps.len() - 1, ps.last().push(c))) == join_dots(ps).push(c),
{
    let qs = ps.update(ps.len() - 1, ps.last().push(c));
    if ps.len() >= 2 {
        assert(qs.drop_last() =~= ps.drop_last());
        assert(qs.last() == ps.last().push(c));
        assert(join_dots(qs) =~= join_dots(ps).push(c));
    }
}

/// How a text is cut at its dots: the pieces hold no dot, there is at least
/// one, and joined again with dots they give back the text. These two facts
/// leave only one way to cut a text.
pub proof fn lemma_split_dots_law(s: Seq<char>)
    ensures
        split_dots(s).len() >= 1,
        forall|k: int, i: int|
            0 <= k < split_dots(s).len() && 0 <= i < split_dots(s)[k].len() ==> #[trigger] split_dots(s)[k][i]
                != '.',
        join_dots(split_dots(s)) == s,
    decreases s.len(),
{
    reveal(split_dots);
    lemma_split_dots_nonempty(s);
    if s.len() == 0 {
        assert(join_dots(split_dots(s)) =~= s);
    } else {
        let t = s.drop_last();
        let c = s.last();
        lemma_split_dots_law(t);
        lemma_split_dots_nonempty(t);
        let prev = split_dots(t);
        assert(s =~= t.push(c));
        if c == '.' {
            let ps = prev.push(Seq::<char>::empty());
            assert(split_dots(s) == ps);
            assert(ps.drop_last() =~= prev);
            assert(join_dots(ps) =~= t + seq!['.'] + Seq::<char>::empty());
            assert forall|k: int, i: int|
                0 <= k < ps.len() && 0 <= i < ps[k].len() implies #[trigger] ps[k][i] != '.' by {
                assert(ps[k] == prev[k]);
            }
        } else {
            let ps = prev.update(prev.len() - 1, prev.last().push(c));
            assert(split_dots(s) == ps);
            lemma_join_dots_extend_last(prev, c);
            assert forall|k: int, i: int|
                0 <= k < ps.len() && 0 <= i < ps[k].len() implies #[trigger] ps[k][i] != '.' by {
                if k == prev.len() - 1 {
                    if i < prev.last().len() {
                        assert(ps[k][i] == prev[k][i]);
                    }
                } else {
                    assert(ps[k] == prev[k]);
                }
            }
        }
    }
}

} // verus!
