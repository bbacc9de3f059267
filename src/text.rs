use vstd::prelude::*;

verus! {

/// Unicode `White_Space`: the characters that separate the fields of a line.
pub open spec fn is_space(c: char) -> bool {
    let u = c as u32;
    (0x9 <= u <= 0xd) || u == 0x20 || u == 0x85 || u == 0xa0 || u == 0x1680 || (0x2000 <= u
        <= 0x200a) || u == 0x2028 || u == 0x2029 || u == 0x202f || u == 0x205f || u == 0x3000
}

/// Number of leading characters of `s` before its first space.
pub open spec fn word_len(s: Seq<char>) -> nat
    decreases s.len(),
{
    if s.len() == 0 || is_space(s[0]) {
        0
    } else {
        1 + word_len(s.drop_first())
    }
}

/// The maximal runs of non-space characters of `s`, in order.
pub open spec fn tokens(s: Seq<char>) -> Seq<Seq<char>>
    decreases s.len(),
{
    if s.len() == 0 {
        Seq::empty()
    } else if is_space(s[0]) {
        tokens(s.drop_first())
    } else {
        proof {
            lemma_word_len_bound(s);
        }
        seq![s.take(word_len(s) as int)] + tokens(s.skip(word_len(s) as int))
    }
}

/// `s` is one token: non-empty and free of spaces.
pub open spec fn is_word(s: Seq<char>) -> bool {
    s.len() > 0 && forall|i: int| 0 <= i < s.len() ==> !is_space(#[trigger] s[i])
}

pub proof fn lemma_word_len_bound(s: Seq<char>)
    ensures
        word_len(s) <= s.len(),
        s.len() > 0 && !is_space(s[0]) ==> word_len(s) > 0,
    decreases s.len(),
{
    if s.len() > 0 && !is_space(s[0]) {
        lemma_word_len_bound(s.drop_first());
    }
}

/// A run of `n` non-space characters that ends at a space or at the end is
/// exactly the leading word.
pub proof fn lemma_word_len_exact(s: Seq<char>, n: int)
    requires
        0 <= n <= s.len(),
        forall|j: int| 0 <= j < n ==> !is_space(#[trigger] s[j]),
        n == s.len() || is_space(s[n]),
    ensures
        word_len(s) == n,
    decreases n,
{
    if n > 0 {
        lemma_word_len_exact(s.drop_first(), n - 1);
    }
}

/// A word followed by text that starts with a space splits off as the first token.
pub proof fn lemma_tokens_word_then(w: Seq<char>, rest: Seq<char>)
    requires
        is_word(w),
        rest.len() == 0 || is_space(rest[0]),
    ensures
        tokens(w + rest) == seq![w] + tokens(rest),
{
    let s = w + rest;
    lemma_word_len_exact(s, w.len() as int);
    assert(s.take(w.len() as int) =~= w);
    assert(s.skip(w.len() as int) =~= rest);
}

/// Leading spaces do not change the tokens.
pub proof fn lemma_tokens_space_then(c: char, rest: Seq<char>)
    requires
        is_space(c),
    ensures
        tokens(seq![c] + rest) == tokens(rest),
{
    assert((seq![c] + rest).drop_first() =~= rest);
}

pub open spec fn pow16(n: nat) -> nat
    decreases n,
{
    if n == 0 {
        1
    } else {
        16 * pow16((n - 1) as nat)
    }
}

pub open spec fn is_hex_digit(c: char) -> bool {
    let u = c as u32;
    (0x30 <= u <= 0x39) || (0x61 <= u <= 0x66) || (0x41 <= u <= 0x46)
}

/// Value of a hexadecimal digit, either case.
pub open spec fn hex_val(c: char) -> nat {
    let u = c as u32;
    if 0x30 <= u <= 0x39 {
        (u - 0x30) as nat
    } else if 0x61 <= u <= 0x66 {
        (u - 0x61 + 10) as nat
    } else if 0x41 <= u <= 0x46 {
        (u - 0x41 + 10) as nat
    } else {
        0
    }
}

pub open spec fn all_hex_digits(s: Seq<char>) -> bool {
    forall|i: int| 0 <= i < s.len() ==> is_hex_digit(#[trigger] s[i])
}

/// Value of a string of hexadecimal digits, most significant first.
pub open spec fn hex_value(s: Seq<char>) -> nat
    decreases s.len(),
{
    if s.len() == 0 {
        0
    } else {
        hex_value(s.drop_last()) * 16 + hex_val(s.last())
    }
}

/// The digits of a hexadecimal number, after an optional leading `+`.
pub open spec fn hex_digits_of(s: Seq<char>) -> Seq<char> {
    if s.len() > 0 && s[0] == '+' {
        s.drop_first()
    } else {
        s
    }
}

/// A 32-bit unsigned hexadecimal number: an optional `+`, then at least one
/// digit of either case; leading zeros are allowed, values over `u32::MAX` are not.
pub open spec fn parse_hex(s: Seq<char>) -> Option<u32> {
    let d = hex_digits_of(s);
    if d.len() > 0 && all_hex_digits(d) && hex_value(d) <= u32::MAX {
        Some(hex_value(d) as u32)
    } else {
        None
    }
}

pub open spec fn lower_hex_digits() -> Seq<char> {
    seq!['0', '1', '2', '3', '4', '5', '6', '7', '8', '9', 'a', 'b', 'c', 'd', 'e', 'f']
}

/// Lowercase hexadecimal rendering of `n`, without leading zeros (`0` is `"0"`).
pub open spec fn hex_of(n: nat) -> Seq<char>
    decreases n,
{
    if n < 16 {
        seq![lower_hex_digits()[n as int]]
    } else {
        hex_of(n / 16).push(lower_hex_digits()[(n % 16) as int])
    }
}

proof fn lemma_hex_digit_char(d: nat)
    requires
        d < 16,
    ensures
        is_hex_digit(lower_hex_digits()[d as int]),
        hex_val(lower_hex_digits()[d as int]) == d,
        !is_space(lower_hex_digits()[d as int]),
        lower_hex_digits()[d as int] != '+',
{
    assert(d == 0 || d == 1 || d == 2 || d == 3 || d == 4 || d == 5 || d == 6 || d == 7 || d == 8
        || d == 9 || d == 10 || d == 11 || d == 12 || d == 13 || d == 14 || d == 15);
}

pub proof fn lemma_pow16_positive(n: nat)
    ensures
        pow16(n) >= 1,
    decreases n,
{
    if n > 0 {
        lemma_pow16_positive((n - 1) as nat);
    }
}

/// The value of a concatenation of digit strings.
pub proof fn lemma_hex_value_append(s: Seq<char>, t: Seq<char>)
    ensures
        hex_value(s + t) == hex_value(s) * pow16(t.len()) + hex_value(t),
    decreases t.len(),
{
    if t.len() == 0 {
        assert(s + t =~= s);
    } else {
        let t1 = t.drop_last();
        assert((s + t).drop_last() =~= s + t1);
        assert((s + t).last() == t.last());
        lemma_hex_value_append(s, t1);
        assert(pow16(t.len()) == 16 * pow16(t1.len()));
        assert(hex_value(t) == hex_value(t1) * 16 + hex_val(t.last()));
        let a = hex_value(s);
        let p = pow16(t1.len());
        let b = hex_value(t1);
        assert((a * p + b) * 16 + hex_val(t.last()) == a * (16 * p) + (b * 16 + hex_val(t.last())))
            by (nonlinear_arith);
    }
}

pub proof fn lemma_hex_value_bound(s: Seq<char>)
    ensures
        hex_value(s) < pow16(s.len()),
    decreases s.len(),
{
    if s.len() > 0 {
        lemma_hex_value_bound(s.drop_last());
        let a = hex_value(s.drop_last());
        let p = pow16(s.drop_last().len());
        assert(hex_val(s.last()) < 16);
        assert(a * 16 + hex_val(s.last()) < 16 * p) by (nonlinear_arith)
            requires
                a < p,
                hex_val(s.last()) < 16,
        ;
    }
}

/// What the rendering of `n` is made of, and that it reads back as `n`.
pub proof fn lemma_hex_of(n: nat)
    ensures
        hex_of(n).len() > 0,
        all_hex_digits(hex_of(n)),
        is_word(hex_of(n)),
        hex_of(n)[0] != '+',
        hex_value(hex_of(n)) == n,
        n < pow16(8) ==> hex_of(n).len() <= 8,
    decreases n,
{
    if n < 16 {
        lemma_hex_digit_char(n);
        assert(hex_of(n).drop_last() =~= Seq::<char>::empty());
        assert(hex_value(hex_of(n)) == hex_value(Seq::<char>::empty()) * 16 + hex_val(
            hex_of(n).last(),
        ));
    } else {
        lemma_hex_of(n / 16);
        lemma_hex_digit_char(n % 16);
        let h = hex_of(n);
        assert(h.drop_last() =~= hex_of(n / 16));
        assert forall|i: int| 0 <= i < h.len() implies is_hex_digit(#[trigger] h[i]) && !is_space(
            h[i],
        ) by {
            if i < h.len() - 1 {
                assert(h[i] == hex_of(n / 16)[i]);
            }
        }
        assert(h[0] == hex_of(n / 16)[0]);
        assert(n == (n / 16) * 16 + n % 16);
        assert(hex_value(h) == hex_value(hex_of(n / 16)) * 16 + hex_val(h.last()));
        if n < pow16(8) {
            assert(pow16(8) == 16 * pow16(7));
            assert(n / 16 < pow16(7));
            lemma_hex_of_len(n / 16, 7);
        }
    }
}

proof fn lemma_hex_of_len(n: nat, k: nat)
    requires
        n < pow16(k),
    ensures
        hex_of(n).len() <= k || (k == 0 && hex_of(n).len() == 1),
    decreases n,
{
    if n >= 16 {
        assert(k > 1) by {
            if k <= 1 {
                reveal_with_fuel(pow16, 2);
                assert(pow16(0) == 1);
            }
        }
        assert(pow16(k) == 16 * pow16((k - 1) as nat));
        assert(n / 16 < pow16((k - 1) as nat));
        lemma_hex_of_len(n / 16, (k - 1) as nat);
    } else if k > 0 {
        assert(hex_of(n).len() == 1);
    }
}

/// Relies on `String::push`, which appends one character to the string.
#[verifier::external_body]
pub(crate) fn push_char(s: &mut String, c: char)
    ensures
        final(s)@ == old(s)@.push(c),
{
    s.push(c);
}

pub fn is_space_char(c: char) -> (r: bool)
    ensures
        r == is_space(c),
{
    let u = c as u32;
    (0x9 <= u && u <= 0xd) || u == 0x20 || u == 0x85 || u == 0xa0 || u == 0x1680 || (0x2000 <= u
        && u <= 0x200a) || u == 0x2028 || u == 0x2029 || u == 0x202f || u == 0x205f || u == 0x3000
}

/// The characters of `s`, one per element.
pub fn chars_of(s: &str) -> (r: Vec<char>)
    ensures
        r@ == s@,
{
    let mut r: Vec<char> = Vec::new();
    for c in it: s.chars()
        invariant
            r@ == it.seq().take(it.index() as int),
    {
        r.push(c);
    }
    r
}

fn hex_char(d: u32) -> (c: char)
    requires
        d < 16,
    ensures
        c == lower_hex_digits()[d as int],
{
    match d {
        0 => '0',
        1 => '1',
        2 => '2',
        3 => '3',
        4 => '4',
        5 => '5',
        6 => '6',
        7 => '7',
        8 => '8',
        9 => '9',
        10 => 'a',
        11 => 'b',
        12 => 'c',
        13 => 'd',
        14 => 'e',
        _ => 'f',
    }
}

/// Appends the lowercase hexadecimal rendering of `n`.
pub fn push_hex(out: &mut String, n: u32)
    ensures
        final(out)@ == old(out)@ + hex_of(n as nat),
    decreases n,
{
    if n >= 16 {
        push_hex(out, n / 16);
    }
    push_char(out, hex_char(n % 16));
    assert(final(out)@ =~= old(out)@ + hex_of(n as nat));
}

fn hex_digit_value(c: char) -> (r: Option<u32>)
    ensures
        r == (if is_hex_digit(c) {
            Some(hex_val(c) as u32)
        } else {
            None::<u32>
        }),
{
    let u = c as u32;
    if 0x30 <= u && u <= 0x39 {
        Some(u - 0x30)
    } else if 0x61 <= u && u <= 0x66 {
        Some(u - 0x61 + 10)
    } else if 0x41 <= u && u <= 0x46 {
        Some(u - 0x41 + 10)
    } else {
        None
    }
}

/// Reads `chars[b..e]` as a 32-bit hexadecimal number.
pub fn parse_hex_range(chars: &Vec<char>, b: usize, e: usize) -> (r: Option<u32>)
    requires
        b <= e <= chars.len(),
    ensures
        r == parse_hex(chars@.subrange(b as int, e as int)),
{
    let ghost s = chars@.subrange(b as int, e as int);
    let mut start = b;
    if start < e && chars[start] == '+' {
        start = start + 1;
    }
    let ghost d = chars@.subrange(start as int, e as int);
    assert(hex_digits_of(s) =~= d);
    if start == e {
        return None;
    }
    let mut v: u64 = 0;
    let mut i = start;
    while i < e
        invariant
            start <= i <= e <= chars.len(),
            d == chars@.subrange(start as int, e as int),
            hex_digits_of(chars@.subrange(b as int, e as int)) == d,
            v == hex_value(chars@.subrange(start as int, i as int)),
            v <= u32::MAX,
            all_hex_digits(chars@.subrange(start as int, i as int)),
        decreases e - i,
    {
        let ghost pre = chars@.subrange(start as int, i as int);
        let ghost next = chars@.subrange(start as int, i + 1);
        assert(next.drop_last() =~= pre);
        assert(next[i - start] == chars@[i as int]);
        match hex_digit_value(chars[i]) {
            None => {
                assert(d[i - start] == chars@[i as int]);
                assert(!is_hex_digit(d[i - start]));
                return None;
            },
            Some(x) => {
                let w = v * 16 + x as u64;
                if w > 0xffff_ffff {
                    proof {
                        let rest = chars@.subrange(i + 1, e as int);
                        lemma_hex_value_append(next, rest);
                        lemma_pow16_positive(rest.len());
                        assert(next + rest =~= d);
                        assert(hex_value(next) * pow16(rest.len()) >= hex_value(next))
                            by (nonlinear_arith)
                            requires
                                pow16(rest.len()) >= 1,
                        ;
                    }
                    return None;
                }
                v = w;
                i = i + 1;
                assert forall|j: int| 0 <= j < next.len() implies is_hex_digit(
                    #[trigger] next[j],
                ) by {
                    if j < pre.len() {
                        assert(next[j] == pre[j]);
                    }
                }
            },
        }
    }
    assert(chars@.subrange(start as int, i as int) =~= d);
    Some(v as u32)
}

/// Finds the next token of `chars` at or after `start`, as a range `(b, e)`.
pub fn next_token(chars: &Vec<char>, start: usize) -> (r: Option<(usize, usize)>)
    requires
        start <= chars.len(),
    ensures
        match r {
            None => tokens(chars@.skip(start as int)).len() == 0,
            Some((b, e)) => start <= b < e <= chars.len() && tokens(chars@.skip(start as int))
                == seq![chars@.subrange(b as int, e as int)] + tokens(chars@.skip(e as int)),
        },
{
    let mut i = start;
    while i < chars.len() && is_space_char(chars[i])
        invariant
            start <= i <= chars.len(),
            tokens(chars@.skip(start as int)) == tokens(chars@.skip(i as int)),
        decreases chars.len() - i,
    {
        assert(chars@.skip(i as int).drop_first() =~= chars@.skip(i + 1));
        i = i + 1;
    }
    if i == chars.len() {
        assert(chars@.skip(i as int) =~= Seq::<char>::empty());
        return None;
    }
    let b = i;
    while i < chars.len() && !is_space_char(chars[i])
        invariant
            b < i <= chars.len() || (b == i < chars.len() && !is_space(chars@[b as int])),
            forall|j: int| b <= j < i ==> !is_space(#[trigger] chars@[j]),
        decreases chars.len() - i,
    {
        i = i + 1;
    }
    proof {
        let s = chars@.skip(b as int);
        let n = i - b;
        lemma_word_len_exact(s, n);
        assert(s.take(n) =~= chars@.subrange(b as int, i as int));
        assert(s.skip(n) =~= chars@.skip(i as int));
    }
    Some((b, i))
}

} // verus!
