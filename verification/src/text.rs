//! Text as sequences of characters: white space, numbers, pieces and words.

use vstd::prelude::*;

verus! {

/// `String::push` of the standard library: the given character is appended to the text.
pub assume_specification[ String::push ](s: &mut String, c: char)
    ensures
        final(s)@ == old(s)@.push(c),
;

/// The characters of a text.
pub fn chars_of(s: &str) -> (r: Vec<char>)
    ensures
        r@ == s@,
{
    let mut out: Vec<char> = Vec::new();
    for c in it: s.chars()
        invariant
            out@ == it.seq().take(it.index() as int),
            it.seq() == s@,
    {
        out.push(c);
    }
    assert(s@.take(s@.len() as int) =~= s@);
    out
}

/// The text made of some characters.
pub fn text_of(chars: &[char]) -> (r: String)
    ensures
        r@ == chars@,
{
    let mut out = String::new();
    let mut i: usize = 0;
    while i < chars.len()
        invariant
            i <= chars@.len(),
            out@ == chars@.take(i as int),
        decreases chars@.len() - i,
    {
        out.push(chars[i]);
        i = i + 1;
        assert(chars@.take(i as int) =~= chars@.take(i - 1).push(chars@[i - 1]));
    }
    assert(chars@.take(chars@.len() as int) =~= chars@);
    out
}

/// Whether two texts are the same.
pub fn same_text(a: &str, b: &str) -> (r: bool)
    ensures
        r == (a@ == b@),
{
    let x = a.to_string();
    let y = b.to_string();
    x == y
}

/// What `String::from_utf8` says of bytes that are no text.
pub uninterp spec fn utf8_fault(bytes: Seq<u8>) -> Seq<char>;

/// `String::from_utf8` of the standard library: the text whose UTF-8 encoding the bytes are, or,
/// where they are none, an error whose text is a function of the bytes.
#[verifier::external_body]
pub(crate) fn text_from_utf8(bytes: Vec<u8>) -> (r: Result<String, String>)
    ensures
        match r {
            Ok(s) => vstd::utf8::valid_utf8(bytes@) && s@ == vstd::utf8::decode_utf8(bytes@),
            Err(e) => !vstd::utf8::valid_utf8(bytes@) && e@ == utf8_fault(bytes@),
        },
{
    String::from_utf8(bytes).map_err(|e| e.to_string())
}

// ── White space ──

/// Whether a character has the Unicode property `White_Space`.
pub open spec fn is_space(c: char) -> bool {
    ||| '\u{9}' <= c <= '\u{d}'
    ||| c == '\u{20}'
    ||| c == '\u{85}'
    ||| c == '\u{a0}'
    ||| c == '\u{1680}'
    ||| '\u{2000}' <= c <= '\u{200a}'
    ||| c == '\u{2028}'
    ||| c == '\u{2029}'
    ||| c == '\u{202f}'
    ||| c == '\u{205f}'
    ||| c == '\u{3000}'
}

/// Decides [`is_space`].
pub fn char_is_space(c: char) -> (r: bool)
    ensures
        r == is_space(c),
{
    ('\u{9}' <= c && c <= '\u{d}') || c == '\u{20}' || c == '\u{85}' || c == '\u{a0}' || c
        == '\u{1680}' || ('\u{2000}' <= c && c <= '\u{200a}') || c == '\u{2028}' || c == '\u{2029}'
        || c == '\u{202f}' || c == '\u{205f}' || c == '\u{3000}'
}

/// A text without the white space at its start.
pub open spec fn trimmed_start(s: Seq<char>) -> Seq<char>
    decreases s.len(),
{
    if s.len() > 0 && is_space(s[0]) {
        trimmed_start(s.skip(1))
    } else {
        s
    }
}

/// A text without the white space at its end.
pub open spec fn trimmed_end(s: Seq<char>) -> Seq<char>
    decreases s.len(),
{
    if s.len() > 0 && is_space(s.last()) {
        trimmed_end(s.drop_last())
    } else {
        s
    }
}

/// A text without the white space around it.
pub open spec fn trimmed(s: Seq<char>) -> Seq<char> {
    trimmed_end(trimmed_start(s))
}

/// White space around a text that neither starts nor ends with some comes off.
pub proof fn space_comes_off(before: Seq<char>, s: Seq<char>, behind: Seq<char>)
    requires
        s.len() > 0,
        !is_space(s[0]),
        !is_space(s.last()),
        forall|i: int| 0 <= i < before.len() ==> is_space(#[trigger] before[i]),
        forall|i: int| 0 <= i < behind.len() ==> is_space(#[trigger] behind[i]),
    ensures
        trimmed(before + s + behind) == s,
    decreases before.len(), behind.len(),
{
    let whole = before + s + behind;
    if before.len() > 0 {
        let fewer = before.skip(1);
        assert forall|i: int| 0 <= i < fewer.len() implies is_space(#[trigger] fewer[i]) by {
            assert(fewer[i] == before[i + 1]);
        }
        assert(whole[0] == before[0]);
        assert(whole.skip(1) =~= fewer + s + behind);
        space_comes_off(fewer, s, behind);
    } else {
        assert(whole[0] == s[0]);
        assert(trimmed_start(whole) == whole);
        if behind.len() > 0 {
            let fewer = behind.drop_last();
            assert forall|i: int| 0 <= i < fewer.len() implies is_space(#[trigger] fewer[i]) by {
                assert(fewer[i] == behind[i]);
            }
            assert(whole.last() == behind[behind.len() - 1]);
            assert(whole.drop_last() =~= before + s + fewer);
            space_comes_off(before, s, fewer);
            assert((before + s + fewer)[0] == s[0]);
        } else {
            assert(whole =~= s);
        }
    }
}

/// Where there is nothing but white space, nothing is left.
pub proof fn spaces_alone_leave_nothing(s: Seq<char>)
    requires
        forall|i: int| 0 <= i < s.len() ==> is_space(#[trigger] s[i]),
    ensures
        trimmed(s) == Seq::<char>::empty(),
    decreases s.len(),
{
    if s.len() > 0 {
        let rest = s.skip(1);
        assert forall|i: int| 0 <= i < rest.len() implies is_space(#[trigger] rest[i]) by {
            assert(rest[i] == s[i + 1]);
        }
        assert(is_space(s[0]));
        spaces_alone_leave_nothing(rest);
    }
}

/// Among the ASCII characters, the blank and those from the tabulator to the carriage return are
/// white space, and no others.
pub proof fn ascii_white_space(c: char)
    requires
        (c as u32) < 128,
    ensures
        is_space(c) <==> c == ' ' || 9 <= c as u32 <= 13,
{
}

/// Beyond ASCII, white space is next line, the blanks and separators of Unicode, and no others.
pub proof fn wide_white_space(c: char)
    requires
        c as u32 >= 128,
    ensures
        is_space(c) <==> c as u32 == 133 || c as u32 == 160 || c as u32 == 5760 || 8192 <= c as u32
            <= 8202 || c as u32 == 8232 || c as u32 == 8233 || c as u32 == 8239 || c as u32 == 8287
            || c as u32 == 12288,
{
}

/// The part of `chars` that [`trimmed`] leaves.
pub fn trim_chars(chars: &[char]) -> (r: Vec<char>)
    ensures
        r@ == trimmed(chars@),
{
    let mut i: usize = 0;
    assert(chars@.skip(0) =~= chars@);
    while i < chars.len() && char_is_space(chars[i])
        invariant
            i <= chars@.len(),
            trimmed_start(chars@) == trimmed_start(chars@.skip(i as int)),
        decreases chars@.len() - i,
    {
        assert(chars@.skip(i as int).skip(1) =~= chars@.skip(i + 1));
        i = i + 1;
    }
    let ghost start = chars@.skip(i as int);
    assert(trimmed_start(chars@) == start);
    let mut j: usize = chars.len();
    assert(chars@.subrange(i as int, j as int) =~= start);
    while j > i && char_is_space(chars[j - 1])
        invariant
            i <= j <= chars@.len(),
            trimmed_end(start) == trimmed_end(chars@.subrange(i as int, j as int)),
        decreases j,
    {
        assert(chars@.subrange(i as int, j as int).drop_last() =~= chars@.subrange(
            i as int,
            j - 1,
        ));
        j = j - 1;
    }
    vstd::slice::slice_to_vec(vstd::slice::slice_subrange(chars, i, j))
}

// ── Numbers ──

/// The digit `d` in the notation of the numbers below 36.
pub open spec fn digit_char(d: nat) -> char {
    if d < 10 {
        (d + 48) as char
    } else {
        (d + 87) as char
    }
}

/// A number in positional notation, without leading zeros.
pub open spec fn positional(n: nat, radix: nat) -> Seq<char>
    decreases n,
{
    if radix < 2 || n < radix {
        seq![digit_char(n)]
    } else {
        proof {
            vstd::arithmetic::div_mod::lemma_div_decreases(n as int, radix as int);
        }
        positional(n / radix, radix).push(digit_char(n % radix))
    }
}

/// A number in decimal notation.
pub open spec fn dec(n: nat) -> Seq<char> {
    positional(n, 10)
}

/// A number of zeros.
pub open spec fn zeros(n: nat) -> Seq<char> {
    Seq::new(n, |i: int| '0')
}

/// A number in decimal notation, with leading zeros up to `width` characters; a sign counts as a
/// character.
pub open spec fn dec_padded(n: int, width: nat) -> Seq<char> {
    if n < 0 {
        let digits = dec((-n) as nat);
        seq!['-'] + zeros(
            if digits.len() + 1 < width {
                (width - digits.len() - 1) as nat
            } else {
                0
            },
        ) + digits
    } else {
        let digits = dec(n as nat);
        zeros(
            if digits.len() < width {
                (width - digits.len()) as nat
            } else {
                0
            },
        ) + digits
    }
}

/// Decimal digits are ASCII characters.
pub proof fn dec_is_ascii(n: nat)
    ensures
        forall|i: int| 0 <= i < dec(n).len() ==> '0' <= #[trigger] dec(n)[i] <= '9',
        dec(n).len() > 0,
    decreases n,
{
    if n >= 10 {
        dec_is_ascii(n / 10);
        assert(dec(n) =~= dec(n / 10).push(digit_char(n % 10)));
        assert forall|i: int| 0 <= i < dec(n).len() implies '0' <= #[trigger] dec(n)[i] <= '9' by {
            if i < dec(n / 10).len() {
                assert(dec(n)[i] == dec(n / 10)[i]);
            }
        }
    } else {
        assert(dec(n) =~= seq![digit_char(n)]);
    }
}

/// The number that decimal digits stand for.
pub open spec fn digits_value(s: Seq<char>) -> int
    decreases s.len(),
{
    if s.len() == 0 {
        0
    } else {
        digits_value(s.drop_last()) * 10 + (s.last() as int - 48)
    }
}

/// The digits of a number, behind any zeros, stand for that number.
pub proof fn padded_digits_value(k: nat, n: nat)
    ensures
        digits_value(zeros(k) + dec(n)) == n,
    decreases k, n,
{
    let s = zeros(k) + dec(n);
    if n >= 10 {
        padded_digits_value(k, n / 10);
        assert(dec(n) =~= dec(n / 10).push(digit_char(n % 10)));
        assert(s.drop_last() =~= zeros(k) + dec(n / 10));
        assert(s.last() == digit_char(n % 10));
    } else if k > 0 {
        padded_digits_value((k - 1) as nat, 0);
        assert(dec(n) =~= seq![digit_char(n)]);
        assert(dec(0) =~= seq!['0']);
        assert(s.drop_last() =~= zeros((k - 1) as nat) + dec(0));
        assert(s.last() == digit_char(n));
    } else {
        assert(dec(n) =~= seq![digit_char(n)]);
        assert(s =~= seq![digit_char(n)]);
        assert(s.drop_last() =~= Seq::<char>::empty());
        assert(digits_value(s.drop_last()) == 0);
    }
}

/// A number has the digits of its tenth part and one more, its last.
pub proof fn decimals_grow_by_a_digit(n: nat)
    ensures
        n < 10 ==> dec(n) == seq![(n + 48) as char],
        n >= 10 ==> dec(n) == dec(n / 10).push((n % 10 + 48) as char),
{
}

/// A number to another base, such as 16, has the digits of its quotient and one more, that of its
/// remainder; the letters from `a` on are the digits from ten on.
pub proof fn digits_of_any_base(n: nat, radix: nat, d: nat)
    requires
        2 <= radix <= 36,
        d < 36,
    ensures
        n < radix ==> positional(n, radix) == seq![digit_char(n)],
        n >= radix ==> positional(n, radix) == positional(n / radix, radix).push(
            digit_char(n % radix),
        ),
        d < 10 ==> digit_char(d) == ('0' as nat + d) as char,
        d >= 10 ==> digit_char(d) == ('a' as nat + d - 10) as char,
{
}

/// A number other than zero starts with another digit.
pub proof fn no_leading_zeros(n: nat)
    ensures
        dec(n).len() > 0,
        dec(n)[0] == '0' <==> n == 0,
        n == 0 ==> dec(n).len() == 1,
    decreases n,
{
    if n >= 10 {
        no_leading_zeros(n / 10);
        assert(dec(n)[0] == dec(n / 10)[0]);
    }
}

/// A digit more makes a number ten times as large, and adds its own value.
pub proof fn digits_count_tenfold(s: Seq<char>, c: char)
    ensures
        digits_value(Seq::empty()) == 0,
        digits_value(s.push(c)) == digits_value(s) * 10 + (c as int - '0' as int),
{
    assert(s.push(c).drop_last() =~= s);
}

/// A number that is padded has its own digits at the end and zeros before them, up to the width;
/// with a minus sign, which takes a character, it comes behind it.
pub proof fn padding_is_zeros(n: nat, width: nat)
    ensures
        ({
            let s = dec_padded(n as int, width);
            let digits = dec(n);
            &&& s.len() == (if digits.len() < width {
                width
            } else {
                digits.len()
            })
            &&& s.skip(s.len() - digits.len()) == digits
            &&& forall|i: int| 0 <= i < s.len() - digits.len() ==> #[trigger] s[i] == '0'
            &&& n > 0 && width > 0 ==> dec_padded(-(n as int), width) == seq!['-'] + dec_padded(
                n as int,
                (width - 1) as nat,
            )
        }),
{
    let s = dec_padded(n as int, width);
    assert(s.skip(s.len() - dec(n).len()) =~= dec(n));
    if n > 0 && width > 0 {
        assert(-(-(n as int)) == n);
        assert(dec_padded(-(n as int), width) =~= seq!['-'] + dec_padded(
            n as int,
            (width - 1) as nat,
        ));
    }
}

/// Numbers that differ are written differently.
pub proof fn numbers_are_written_apart(a: nat, b: nat)
    requires
        a != b,
    ensures
        dec(a) != dec(b),
{
    padded_digits_value(0, a);
    padded_digits_value(0, b);
    assert(zeros(0) + dec(a) =~= dec(a));
    assert(zeros(0) + dec(b) =~= dec(b));
}

/// Two numbers padded to the same width are written alike only if they are the same.
pub proof fn padded_numbers_differ(a: int, b: int, width: nat)
    requires
        dec_padded(a, width) == dec_padded(b, width),
    ensures
        a == b,
{
    let s = dec_padded(a, width);
    let ma: nat = if a < 0 {
        (-a) as nat
    } else {
        a as nat
    };
    let mb: nat = if b < 0 {
        (-b) as nat
    } else {
        b as nat
    };
    dec_is_ascii(ma);
    dec_is_ascii(mb);
    let sign_a: nat = if a < 0 {
        1
    } else {
        0
    };
    let sign_b: nat = if b < 0 {
        1
    } else {
        0
    };
    let ka: nat = if dec(ma).len() + sign_a < width {
        (width - dec(ma).len() - sign_a) as nat
    } else {
        0
    };
    let kb: nat = if dec(mb).len() + sign_b < width {
        (width - dec(mb).len() - sign_b) as nat
    } else {
        0
    };
    assert(s.skip(sign_a as int) =~= zeros(ka) + dec(ma));
    assert(s.skip(sign_b as int) =~= zeros(kb) + dec(mb));
    assert(s[0] == '-' <==> a < 0) by {
        if a >= 0 {
            assert(s[0] == (zeros(ka) + dec(ma))[0]);
        }
    }
    assert(s[0] == '-' <==> b < 0) by {
        if b >= 0 {
            assert(s[0] == (zeros(kb) + dec(mb))[0]);
        }
    }
    padded_digits_value(ka, ma);
    padded_digits_value(kb, mb);
}

/// Whether a text is made of decimal digits.
pub open spec fn all_digits(s: Seq<char>) -> bool {
    forall|i: int| 0 <= i < s.len() ==> '0' <= #[trigger] s[i] <= '9'
}

/// A number that fits into two, three or four digits is written in as many when it is padded to
/// them.
pub proof fn padded_to_width(n: int, width: nat)
    requires
        width == 2 && 0 <= n < 100 || width == 3 && 0 <= n < 1000 || width == 4 && 0 <= n < 10000,
    ensures
        dec_padded(n, width).len() == width,
        all_digits(dec_padded(n, width)),
        digits_value(dec_padded(n, width)) == n,
{
    assert(dec(n as nat).len() <= width) by {
        reveal_with_fuel(positional, 5);
    }
    dec_is_ascii(n as nat);
    padded_digits_value((width - dec(n as nat).len()) as nat, n as nat);
}

/// Two digits behind others make the number a hundred times as large, and add their own.
pub proof fn two_more_digits(a: Seq<char>, b: Seq<char>)
    requires
        all_digits(a),
        all_digits(b),
        b.len() == 2,
    ensures
        all_digits(a + b),
        digits_value(a + b) == digits_value(a) * 100 + digits_value(b),
{
    reveal_with_fuel(digits_value, 3);
    let s = a + b;
    assert(s.drop_last().drop_last() =~= a);
    assert(b.drop_last().drop_last() =~= Seq::<char>::empty());
    assert(s.drop_last().last() == b[0] && s.last() == b[1]);
    assert(b.drop_last().last() == b[0] && b.last() == b[1]);
}

/// One digit behind others makes the number ten times as large, and adds its own value.
pub proof fn one_more_digit(a: Seq<char>, b: Seq<char>)
    requires
        all_digits(a),
        all_digits(b),
        b.len() == 1,
    ensures
        all_digits(a + b),
        digits_value(a + b) == digits_value(a) * 10 + digits_value(b),
{
    reveal_with_fuel(digits_value, 2);
    let s = a + b;
    assert(s.drop_last() =~= a);
    assert(b.drop_last() =~= Seq::<char>::empty());
    assert(s.last() == b[0] && b.last() == b[0]);
}

/// Three digits behind others make the number a thousand times as large, and add their own.
pub proof fn three_more_digits(a: Seq<char>, b: Seq<char>)
    requires
        all_digits(a),
        all_digits(b),
        b.len() == 3,
    ensures
        all_digits(a + b),
        digits_value(a + b) == digits_value(a) * 1000 + digits_value(b),
{
    let (x, y) = (b.take(1), b.skip(1));
    assert(all_digits(x) && all_digits(y));
    assert(b =~= x + y);
    assert(a + b =~= a + x + y);
    one_more_digit(a, x);
    two_more_digits(a + x, y);
    two_more_digits(x, y);
}

/// Whether one text stands before another in the order of their characters.
pub open spec fn sorts_before(a: Seq<char>, b: Seq<char>) -> bool {
    exists|i: int|
        0 <= i <= a.len() && i < b.len() && #[trigger] a.take(i) == b.take(i) && (i == a.len()
            || a[i] < b[i])
}

/// Digits of the same number, as many as each other, are the same.
pub proof fn same_digits(a: Seq<char>, b: Seq<char>)
    requires
        all_digits(a),
        all_digits(b),
        a.len() == b.len(),
        digits_value(a) == digits_value(b),
    ensures
        a == b,
    decreases a.len(),
{
    if a.len() > 0 {
        assert(all_digits(a.drop_last()));
        assert(all_digits(b.drop_last()));
        assert('0' <= a[a.len() - 1] <= '9' && '0' <= b[b.len() - 1] <= '9');
        same_digits(a.drop_last(), b.drop_last());
        assert(a =~= a.drop_last().push(a.last()));
        assert(b =~= b.drop_last().push(b.last()));
    }
}

/// Texts of as many digits as each other stand in the order of their numbers.
pub proof fn digits_sort_by_value(a: Seq<char>, b: Seq<char>)
    requires
        all_digits(a),
        all_digits(b),
        a.len() == b.len(),
        digits_value(a) < digits_value(b),
    ensures
        sorts_before(a, b),
    decreases a.len(),
{
    let (p, q) = (a.drop_last(), b.drop_last());
    assert(all_digits(p));
    assert(all_digits(q));
    assert('0' <= a[a.len() - 1] <= '9' && '0' <= b[b.len() - 1] <= '9');
    if digits_value(p) < digits_value(q) {
        digits_sort_by_value(p, q);
        let i = choose|i: int|
            0 <= i <= p.len() && i < q.len() && #[trigger] p.take(i) == q.take(i) && (i == p.len()
                || p[i] < q[i]);
        assert(a.take(i) =~= p.take(i));
        assert(b.take(i) =~= q.take(i));
    } else {
        same_digits(p, q);
        let i = a.len() - 1;
        assert(a.take(i) =~= p);
        assert(b.take(i) =~= q);
    }
}

/// Texts of the same length keep their order between other texts.
pub proof fn order_is_kept(before: Seq<char>, a: Seq<char>, b: Seq<char>, behind: Seq<char>)
    requires
        sorts_before(a, b),
        a.len() == b.len(),
    ensures
        sorts_before(before + a + behind, before + b + behind),
{
    let i = choose|i: int|
        0 <= i <= a.len() && i < b.len() && #[trigger] a.take(i) == b.take(i) && (i == a.len()
            || a[i] < b[i]);
    let (x, y) = (before + a + behind, before + b + behind);
    let j = before.len() + i;
    assert(x.take(j) =~= before + a.take(i));
    assert(y.take(j) =~= before + b.take(i));
    assert(x[j] == a[i] && y[j] == b[i]);
}

/// The digit `d` as a character.
pub fn char_of_digit(d: u8) -> (r: char)
    requires
        d < 36,
    ensures
        r == digit_char(d as nat),
{
    if d < 10 {
        (d + 48) as char
    } else {
        (d + 87) as char
    }
}

/// The digits of a number in positional notation.
pub fn positional_chars(n: u64, radix: u8) -> (r: Vec<char>)
    requires
        2 <= radix <= 36,
    ensures
        r@ == positional(n as nat, radix as nat),
    decreases n,
{
    let base: u64 = radix as u64;
    if n < base {
        let mut out: Vec<char> = Vec::new();
        out.push(char_of_digit(n as u8));
        assert(out@ =~= seq![digit_char(n as nat)]);
        out
    } else {
        proof {
            vstd::arithmetic::div_mod::lemma_div_decreases(n as int, base as int);
            vstd::arithmetic::div_mod::lemma_mod_bound(n as int, base as int);
        }
        let mut out = positional_chars(n / base, radix);
        out.push(char_of_digit((n % base) as u8));
        out
    }
}

/// A number in decimal notation.
pub fn decimal(n: u64) -> (r: String)
    ensures
        r@ == dec(n as nat),
{
    text_of(positional_chars(n, 10).as_slice())
}

/// A number in decimal notation, with leading zeros up to `width` characters.
pub fn decimal_padded(n: i64, width: usize) -> (r: String)
    ensures
        r@ == dec_padded(n as int, width as nat),
{
    let mut out = String::new();
    let mut left: usize = width;
    let digits: Vec<char> = if n < 0 {
        out.push('-');
        if left > 0 {
            left = left - 1;
        }
        let magnitude: u64 = if n == i64::MIN {
            9223372036854775808u64
        } else {
            (-n) as u64
        };
        positional_chars(magnitude, 10)
    } else {
        positional_chars(n as u64, 10)
    };
    let ghost sign = out@;
    let ghost count: nat = if digits@.len() < left {
        (left - digits@.len()) as nat
    } else {
        0
    };
    assert(zeros(0) =~= Seq::<char>::empty());
    let mut done: usize = digits.len();
    while done < left
        invariant
            digits@.len() <= done,
            done <= left || done == digits@.len(),
            out@ == sign + zeros((done - digits@.len()) as nat),
        decreases left - done,
    {
        out.push('0');
        done = done + 1;
        assert(zeros((done - digits@.len()) as nat) =~= zeros(
            (done - 1 - digits@.len()) as nat,
        ).push('0'));
    }
    out.append(text_of(digits.as_slice()).as_str());
    assert(out@ =~= sign + zeros(count) + digits@);
    out
}

/// Why a text is no number of the wanted kind.
#[derive(Clone, Copy, Debug, PartialEq, Eq, Structural)]
pub enum IntError {
    Empty,
    InvalidDigit,
    TooLarge,
}

impl IntError {
    /// The sentence for this error.
    pub open spec fn sentence(self) -> Seq<char> {
        match self {
            IntError::Empty => "cannot parse integer from empty string"@,
            IntError::InvalidDigit => "invalid digit found in string"@,
            IntError::TooLarge => "number too large to fit in target type"@,
        }
    }

    /// Says what is wrong.
    pub fn message(&self) -> (r: String)
        ensures
            r@ == self.sentence(),
    {
        match self {
            IntError::Empty => "cannot parse integer from empty string".to_string(),
            IntError::InvalidDigit => "invalid digit found in string".to_string(),
            IntError::TooLarge => "number too large to fit in target type".to_string(),
        }
    }
}

/// The value of a character as a digit of the given radix; letters count in either case.
pub open spec fn digit_value(c: char, radix: nat) -> Option<nat> {
    let v: int = if '0' <= c <= '9' {
        c as int - 48
    } else if 'a' <= c <= 'z' {
        c as int - 87
    } else if 'A' <= c <= 'Z' {
        c as int - 55
    } else {
        36
    };
    if v < radix && v < 36 {
        Some(v as nat)
    } else {
        None
    }
}

/// The number that the digits `s` stand for behind the digits that gave `acc`. The first
/// character that is no digit, or with which the number passes `max`, decides the error.
pub open spec fn scanned(s: Seq<char>, radix: nat, max: nat, acc: nat) -> Result<nat, IntError>
    decreases s.len(),
{
    if s.len() == 0 {
        Ok(acc)
    } else {
        match digit_value(s[0], radix) {
            None => Err(IntError::InvalidDigit),
            Some(d) => if acc * radix + d > max {
                Err(IntError::TooLarge)
            } else {
                scanned(s.skip(1), radix, max, acc * radix + d)
            },
        }
    }
}

/// The unsigned number that a text stands for: digits, with an optional plus sign before them.
pub open spec fn parsed_uint(s: Seq<char>, radix: nat, max: nat) -> Result<nat, IntError> {
    if s.len() == 0 {
        Err(IntError::Empty)
    } else if s.len() == 1 && (s[0] == '+' || s[0] == '-') {
        Err(IntError::InvalidDigit)
    } else if s[0] == '+' {
        scanned(s.skip(1), radix, max, 0)
    } else {
        scanned(s, radix, max, 0)
    }
}

/// The last digit of a number counts when those before it are read.
proof fn scanned_digit(s: Seq<char>, c: char, radix: nat, max: nat, acc: nat)
    ensures
        scanned(s.push(c), radix, max, acc) == (match scanned(s, radix, max, acc) {
            Err(e) => Err(e),
            Ok(v) => match digit_value(c, radix) {
                None => Err(IntError::InvalidDigit),
                Some(d) => if v * radix + d > max {
                    Err(IntError::TooLarge)
                } else {
                    Ok(v * radix + d)
                },
            },
        }),
    decreases s.len(),
{
    let whole = s.push(c);
    if s.len() == 0 {
        assert(whole.skip(1) =~= Seq::<char>::empty());
        if let Some(d) = digit_value(c, radix) {
            assert(scanned(whole.skip(1), radix, max, acc * radix + d) == Ok::<nat, IntError>(
                acc * radix + d,
            ));
        }
    } else {
        assert(whole[0] == s[0]);
        assert(whole.skip(1) =~= s.skip(1).push(c));
        if let Some(d) = digit_value(s[0], radix) {
            scanned_digit(s.skip(1), c, radix, max, acc * radix + d);
        }
    }
}

/// A number in decimal notation reads back as that number, or as too large.
pub proof fn decimals_read_back(n: nat, max: nat)
    ensures
        parsed_uint(dec(n), 10, max) == (if n <= max {
            Ok::<nat, IntError>(n)
        } else {
            Err::<nat, IntError>(IntError::TooLarge)
        }),
{
    dec_is_ascii(n);
    scanned_decimal(n, max);
    let first = dec(n)[0];
    assert('0' <= first <= '9');
}

proof fn scanned_decimal(n: nat, max: nat)
    ensures
        scanned(dec(n), 10, max, 0) == (if n <= max {
            Ok::<nat, IntError>(n)
        } else {
            Err::<nat, IntError>(IntError::TooLarge)
        }),
    decreases n,
{
    let empty = Seq::<char>::empty();
    let c = digit_char(n % 10);
    assert(digit_value(c, 10) == Some(n % 10));
    if n < 10 {
        assert(dec(n) =~= empty.push(c));
        scanned_digit(empty, c, 10, max, 0);
    } else {
        scanned_decimal(n / 10, max);
        assert(dec(n) =~= dec(n / 10).push(c));
        scanned_digit(dec(n / 10), c, 10, max, 0);
    }
}

/// A character that is no digit, behind digits that can be held, makes a text unreadable.
pub proof fn other_digits_are_refused(n: nat, c: char, max: nat)
    requires
        n <= max,
        !('0' <= c <= '9'),
    ensures
        parsed_uint(dec(n).push(c), 10, max) == Err::<nat, IntError>(IntError::InvalidDigit),
{
    dec_is_ascii(n);
    scanned_decimal(n, max);
    scanned_digit(dec(n), c, 10, max, 0);
    let s = dec(n).push(c);
    assert(s[0] == dec(n)[0]);
    assert('0' <= dec(n)[0] <= '9');
}

/// A plus sign before digits changes nothing; a sign alone, or nothing at all, is no number.
pub proof fn signs_before_numbers(n: nat, max: nat, radix: nat)
    ensures
        parsed_uint(seq!['+'] + dec(n), 10, max) == parsed_uint(dec(n), 10, max),
        parsed_uint(Seq::empty(), radix, max) == Err::<nat, IntError>(IntError::Empty),
        parsed_uint(seq!['+'], radix, max) == Err::<nat, IntError>(IntError::InvalidDigit),
        parsed_uint(seq!['-'], radix, max) == Err::<nat, IntError>(IntError::InvalidDigit),
{
    let s = seq!['+'] + dec(n);
    dec_is_ascii(n);
    assert(s.skip(1) =~= dec(n));
    assert('0' <= dec(n)[0] <= '9');
}

/// Digits count in either case: the letters from `a` on stand for the numbers from ten on, as far
/// as the radix goes, and no other character is a digit.
pub proof fn digits_and_letters_count(v: nat, radix: nat, c: char)
    requires
        radix <= 36,
    ensures
        v < 10 && v < radix ==> digit_value((v + '0' as nat) as char, radix) == Some(v),
        10 <= v < radix ==> digit_value((v - 10 + 'a' as nat) as char, radix) == Some(v)
            && digit_value((v - 10 + 'A' as nat) as char, radix) == Some(v),
        digit_value(c, radix) matches Some(d) ==> d < radix && (c == (d + '0' as nat) as char || c
            == (d - 10 + 'a' as nat) as char || c == (d - 10 + 'A' as nat) as char),
{
}

/// Two digits stand for the first one, taken as often as the radix says, and the second one.
pub proof fn two_digits_are_read(a: char, b: char, radix: nat, max: nat, x: nat, y: nat)
    requires
        radix <= 36,
        digit_value(a, radix) == Some(x),
        digit_value(b, radix) == Some(y),
        x * radix + y <= max,
    ensures
        parsed_uint(seq![a, b], radix, max) == Ok::<nat, IntError>(x * radix + y),
        parsed_uint(seq![b], radix, max) == Ok::<nat, IntError>(y),
{
    let s = seq![a, b];
    let none = Seq::<char>::empty();
    assert(x <= x * radix) by (nonlinear_arith)
        requires
            radix >= 1,
    ;
    assert(0 * radix == 0) by (nonlinear_arith);
    assert(s =~= none.push(a).push(b));
    scanned_digit(none, a, radix, max, 0);
    scanned_digit(none.push(a), b, radix, max, 0);
    assert(seq![b] =~= none.push(b));
    assert(y <= x * radix + y) by (nonlinear_arith);
    scanned_digit(none, b, radix, max, 0);
}

/// Decides [`digit_value`].
pub fn value_of_digit(c: char, radix: u8) -> (r: Option<u8>)
    requires
        radix <= 36,
    ensures
        match digit_value(c, radix as nat) {
            Some(v) => r == Some(v as u8) && v < radix,
            None => r is None,
        },
{
    let code: u32 = c as u32;
    let v: u32 = if '0' <= c && c <= '9' {
        code - 48
    } else if 'a' <= c && c <= 'z' {
        code - 87
    } else if 'A' <= c && c <= 'Z' {
        code - 55
    } else {
        36
    };
    if v < radix as u32 {
        Some(v as u8)
    } else {
        None
    }
}

/// Reads an unsigned number of at most `max`.
pub fn parse_uint(s: &[char], radix: u8, max: u64) -> (r: Result<u64, IntError>)
    requires
        2 <= radix <= 36,
    ensures
        match parsed_uint(s@, radix as nat, max as nat) {
            Ok(v) => r == Ok::<u64, IntError>(v as u64) && v <= max,
            Err(e) => r == Err::<u64, IntError>(e),
        },
{
    if s.len() == 0 {
        return Err(IntError::Empty);
    }
    if s.len() == 1 && (s[0] == '+' || s[0] == '-') {
        return Err(IntError::InvalidDigit);
    }
    let mut i: usize = if s[0] == '+' {
        1
    } else {
        0
    };
    let mut acc: u64 = 0;
    let ghost goal = parsed_uint(s@, radix as nat, max as nat);
    assert(s@.skip(0) =~= s@);
    while i < s.len()
        invariant
            i <= s@.len(),
            acc <= max,
            2 <= radix <= 36,
            goal == scanned(s@.skip(i as int), radix as nat, max as nat, acc as nat),
            goal == parsed_uint(s@, radix as nat, max as nat),
        decreases s@.len() - i,
    {
        assert(s@.skip(i as int)[0] == s@[i as int]);
        assert(s@.skip(i as int).skip(1) =~= s@.skip(i + 1));
        match value_of_digit(s[i], radix) {
            None => {
                return Err(IntError::InvalidDigit);
            },
            Some(d) => {
                assert(0 <= acc * radix <= 0xffff_ffff_ffff_ffff * 36) by (nonlinear_arith)
                    requires
                        0 <= acc <= 0xffff_ffff_ffff_ffff,
                        0 <= radix <= 36,
                ;
                let wide: u128 = acc as u128 * radix as u128 + d as u128;
                if wide > max as u128 {
                    return Err(IntError::TooLarge);
                }
                acc = wide as u64;
            },
        }
        i = i + 1;
    }
    Ok(acc)
}

// ── Pieces ──

/// What a text is cut at.
#[derive(Clone, Copy, Debug, PartialEq, Eq, Structural)]
pub enum Cut {
    Line,
    Dot,
    ColonOrDash,
}

impl Cut {
    /// Whether a text is cut at a character.
    pub open spec fn at(self, c: char) -> bool {
        match self {
            Cut::Line => c == '\n',
            Cut::Dot => c == '.',
            Cut::ColonOrDash => c == ':' || c == '-',
        }
    }

    fn cuts(&self, c: char) -> (r: bool)
        ensures
            r == self.at(c),
    {
        match self {
            Cut::Line => c == '\n',
            Cut::Dot => c == '.',
            Cut::ColonOrDash => c == ':' || c == '-',
        }
    }
}

/// The pieces between the cuts of a text. A text without cuts is one piece.
pub open spec fn pieces(s: Seq<char>, cut: Cut) -> Seq<Seq<char>>
    decreases s.len(),
{
    if s.len() == 0 {
        seq![Seq::empty()]
    } else {
        let before = pieces(s.drop_last(), cut);
        if cut.at(s.last()) {
            before.push(Seq::empty())
        } else {
            before.drop_last().push(before.last().push(s.last()))
        }
    }
}

/// Characters without a cut belong to the last piece of what stands before them.
pub proof fn pieces_grow(s: Seq<char>, more: Seq<char>, cut: Cut)
    requires
        forall|i: int| 0 <= i < more.len() ==> !cut.at(#[trigger] more[i]),
    ensures
        pieces(s, cut).len() > 0,
        pieces(s + more, cut) == pieces(s, cut).drop_last().push(pieces(s, cut).last() + more),
    decreases s.len() + more.len(),
{
    if more.len() == 0 {
        if s.len() > 0 {
            pieces_grow(s.drop_last(), more, cut);
        }
        assert(s + more =~= s);
        assert(pieces(s, cut).last() + more =~= pieces(s, cut).last());
        assert(pieces(s, cut) =~= pieces(s, cut).drop_last().push(pieces(s, cut).last()));
    } else {
        let init = more.drop_last();
        assert forall|i: int| 0 <= i < init.len() implies !cut.at(#[trigger] init[i]) by {
            assert(init[i] == more[i]);
        }
        pieces_grow(s, init, cut);
        assert((s + more).drop_last() =~= s + init);
        assert((s + more).last() == more[more.len() - 1]);
        let p = pieces(s, cut);
        assert(p.drop_last().push(p.last() + init).drop_last() =~= p.drop_last());
        assert((p.last() + init).push(more.last()) =~= p.last() + more);
    }
}

/// What stands before a cut and what stands behind it fall into pieces of their own.
pub proof fn pieces_of_joined(a: Seq<char>, c: char, b: Seq<char>, cut: Cut)
    requires
        cut.at(c),
    ensures
        pieces(a.push(c) + b, cut) == pieces(a, cut) + pieces(b, cut),
    decreases b.len(),
{
    let whole = a.push(c) + b;
    if b.len() == 0 {
        assert(whole =~= a.push(c));
        assert(a.push(c).drop_last() =~= a);
        assert(pieces(b, cut) =~= seq![Seq::<char>::empty()]);
        assert(pieces(a, cut).push(Seq::empty()) =~= pieces(a, cut) + seq![Seq::<char>::empty()]);
    } else {
        let init = b.drop_last();
        pieces_of_joined(a, c, init, cut);
        assert(whole.drop_last() =~= a.push(c) + init);
        assert(whole.last() == b.last());
        pieces_grow(init, Seq::empty(), cut);
        let (p, q) = (pieces(a, cut), pieces(init, cut));
        assert((p + q).last() == q.last());
        assert(pieces(whole, cut) =~= p + pieces(b, cut));
    }
}

/// A text without cuts is one piece; the cuts are line feeds, dots, or colons and dashes.
pub proof fn texts_without_cuts_are_one_piece(s: Seq<char>, cut: Cut, c: char)
    requires
        forall|i: int| 0 <= i < s.len() ==> !cut.at(#[trigger] s[i]),
    ensures
        pieces(s, cut) == seq![s],
        Cut::Line.at(c) <==> c == '\n',
        Cut::Dot.at(c) <==> c == '.',
        Cut::ColonOrDash.at(c) <==> c == ':' || c == '-',
{
    let none = Seq::<char>::empty();
    pieces_grow(none, s, cut);
    assert(none + s =~= s);
    assert(pieces(none, cut) =~= seq![none]);
    assert(seq![none].drop_last().push(none + s) =~= seq![s]);
}

/// The views of pieces.
pub open spec fn pieces_view(v: Seq<Vec<char>>) -> Seq<Seq<char>> {
    Seq::new(v.len(), |i: int| v[i]@)
}

/// Cuts a text into pieces.
pub fn cut_into(s: &[char], cut: Cut) -> (r: Vec<Vec<char>>)
    ensures
        pieces_view(r@) == pieces(s@, cut),
        r@.len() > 0,
{
    let mut done: Vec<Vec<char>> = Vec::new();
    let mut last: Vec<char> = Vec::new();
    let mut i: usize = 0;
    assert(s@.take(0) =~= Seq::<char>::empty());
    assert(pieces_view(done@).push(last@) =~= seq![Seq::<char>::empty()]);
    while i < s.len()
        invariant
            i <= s@.len(),
            pieces(s@.take(i as int), cut) == pieces_view(done@).push(last@),
        decreases s@.len() - i,
    {
        let c: char = s[i];
        let ghost before = pieces_view(done@);
        assert(s@.take(i + 1).drop_last() =~= s@.take(i as int));
        if cut.cuts(c) {
            done.push(last);
            last = Vec::new();
            assert(pieces_view(done@) =~= before.push(last_of(done@)));
            assert(pieces_view(done@).push(last@) =~= pieces(s@.take(i + 1), cut));
        } else {
            let ghost old_last = last@;
            last.push(c);
            assert(before.push(old_last).drop_last() =~= before);
            assert(pieces_view(done@).push(last@) =~= pieces(s@.take(i + 1), cut));
        }
        i = i + 1;
    }
    assert(s@.take(s@.len() as int) =~= s@);
    let ghost before = pieces_view(done@);
    done.push(last);
    assert(pieces_view(done@) =~= before.push(last_of(done@)));
    done
}

spec fn last_of(v: Seq<Vec<char>>) -> Seq<char> {
    v.last()@
}

// ── Searching ──

/// Whether `part` stands at the place `i` of a text.
pub open spec fn stands_at(s: Seq<char>, part: Seq<char>, i: int) -> bool {
    0 <= i && i + part.len() <= s.len() && s.subrange(i, i + part.len()) == part
}

/// Whether `i` is the first place at which `part` stands.
pub open spec fn found_at(s: Seq<char>, part: Seq<char>, i: int) -> bool {
    stands_at(s, part, i) && forall|k: int| 0 <= k < i ==> !stands_at(s, part, k)
}

/// The first place at which `part` stands.
pub open spec fn part_at(s: Seq<char>, part: Seq<char>) -> Option<int> {
    if exists|i: int| stands_at(s, part, i) {
        Some(choose|i: int| found_at(s, part, i))
    } else {
        None
    }
}

/// Where a part stands, it stands for the first time.
proof fn first_place(s: Seq<char>, part: Seq<char>, n: int) -> (i: int)
    requires
        stands_at(s, part, n),
    ensures
        found_at(s, part, i),
        i <= n,
    decreases n,
{
    if forall|k: int| 0 <= k < n ==> !stands_at(s, part, k) {
        n
    } else {
        let k = choose|k: int| 0 <= k < n && stands_at(s, part, k);
        first_place(s, part, k)
    }
}

/// A part is found in a text that holds it, be it at the very start, and at the first place at which
/// its characters stand.
pub proof fn parts_are_found(before: Seq<char>, part: Seq<char>, behind: Seq<char>, k: int)
    ensures
        ({
            let s = before + part + behind;
            &&& part_at(s, part) matches Some(i) && 0 <= i <= before.len() && s.subrange(
                i,
                i + part.len(),
            ) == part && (0 <= k < i ==> s.subrange(k, k + part.len()) != part)
            &&& part_at(part + behind, part) == Some(0int)
        }),
        part_at(behind, part) is None && 0 <= k <= behind.len() - part.len() ==> behind.subrange(
            k,
            k + part.len(),
        ) != part,
{
    let s = before + part + behind;
    let n = before.len() as int;
    assert(s.subrange(n, n + part.len()) =~= part);
    assert(stands_at(s, part, n));
    let i = first_place(s, part, n);
    let j = part_at(s, part)->0;
    assert(found_at(s, part, j));
    assert(i == j) by {
        if i < j {
            assert(stands_at(s, part, i));
        } else if j < i {
            assert(stands_at(s, part, j));
        }
    }
    if 0 <= k < i {
        assert(!stands_at(s, part, k));
    }
    let t = part + behind;
    assert(t.subrange(0, part.len() as int) =~= part);
    assert(stands_at(t, part, 0));
    assert(found_at(t, part, 0));
    let z = part_at(t, part)->0;
    assert(found_at(t, part, z));
    if part_at(behind, part) is None && 0 <= k <= behind.len() - part.len() {
        assert(!stands_at(behind, part, k));
    }
}

/// Looks for the first place at which `part` stands.
pub fn find_part(s: &[char], part: &[char]) -> (r: Option<usize>)
    requires
        part@.len() > 0,
    ensures
        match part_at(s@, part@) {
            Some(i) => r matches Some(k) && k == i && found_at(s@, part@, i),
            None => r is None,
        },
{
    let len: usize = s.len();
    let mut i: usize = 0;
    while i < len && part.len() <= len - i
        invariant
            i <= len == s@.len(),
            forall|k: int| 0 <= k < i ==> !stands_at(s@, part@, k),
        decreases s@.len() - i,
    {
        let mut j: usize = 0;
        while j < part.len() && s[i + j] == part[j]
            invariant
                j <= part@.len(),
                i + part@.len() <= len == s@.len(),
                forall|k: int| 0 <= k < j ==> s@[i + k] == part@[k],
            decreases part@.len() - j,
        {
            j = j + 1;
        }
        if j == part.len() {
            assert(s@.subrange(i as int, i + part@.len()) =~= part@);
            assert(stands_at(s@, part@, i as int));
            assert(found_at(s@, part@, i as int));
            return Some(i);
        }
        assert(!stands_at(s@, part@, i as int)) by {
            if stands_at(s@, part@, i as int) {
                assert(s@.subrange(i as int, i + part@.len())[j as int] == s@[i + j]);
            }
        }
        i = i + 1;
    }
    None
}

/// The place of a character.
pub open spec fn char_at(s: Seq<char>, c: char) -> Option<int> {
    crate::bytes::first_at(s, c)
}

/// Looks for the first place of a character.
pub fn find_char(s: &[char], c: char) -> (r: Option<usize>)
    ensures
        match char_at(s@, c) {
            Some(i) => r matches Some(k) && k == i && 0 <= i < s@.len(),
            None => r is None,
        },
{
    let mut i: usize = 0;
    while i < s.len()
        invariant
            i <= s@.len(),
            forall|k: int| 0 <= k < i ==> s@[k] != c,
        decreases s@.len() - i,
    {
        if s[i] == c {
            proof {
                crate::bytes::first_at_is_first(s@, c);
            }
            return Some(i);
        }
        i = i + 1;
    }
    proof {
        crate::bytes::first_at_is_first(s@, c);
    }
    None
}

/// The characters of a text up to the first white space.
pub open spec fn head(s: Seq<char>) -> Seq<char>
    decreases s.len(),
{
    if s.len() == 0 || is_space(s[0]) {
        Seq::empty()
    } else {
        seq![s[0]] + head(s.skip(1))
    }
}

/// The first word of a text.
pub open spec fn first_word(s: Seq<char>) -> Seq<char> {
    head(trimmed_start(s))
}

/// A text that starts with a word, and goes on with white space if at all, has that word for its
/// first.
pub proof fn words_are_read(word: Seq<char>, rest: Seq<char>)
    requires
        forall|i: int| 0 <= i < word.len() ==> !is_space(#[trigger] word[i]),
        rest.len() > 0 ==> is_space(rest[0]),
    ensures
        head(word + rest) == word,
        word.len() > 0 ==> first_word(word + rest) == word,
    decreases word.len(),
{
    let whole = word + rest;
    if word.len() > 0 {
        let tail = word.skip(1);
        assert(whole[0] == word[0]);
        assert(!is_space(word[0]));
        assert(whole.skip(1) =~= tail + rest);
        assert forall|i: int| 0 <= i < tail.len() implies !is_space(#[trigger] tail[i]) by {
            assert(tail[i] == word[i + 1]);
        }
        words_are_read(tail, rest);
        assert(seq![word[0]] + tail =~= word);
    } else {
        assert(whole =~= rest);
        assert(head(rest) =~= Seq::<char>::empty());
    }
}

/// White space before the first word does not matter.
pub proof fn words_stand_behind_spaces(before: Seq<char>, word: Seq<char>, rest: Seq<char>)
    requires
        forall|i: int| 0 <= i < before.len() ==> is_space(#[trigger] before[i]),
        word.len() > 0,
        forall|i: int| 0 <= i < word.len() ==> !is_space(#[trigger] word[i]),
        rest.len() > 0 ==> is_space(rest[0]),
    ensures
        first_word(before + (word + rest)) == word,
    decreases before.len(),
{
    let whole = before + (word + rest);
    if before.len() == 0 {
        assert(whole =~= word + rest);
        words_are_read(word, rest);
    } else {
        let tail = before.skip(1);
        assert forall|i: int| 0 <= i < tail.len() implies is_space(#[trigger] tail[i]) by {
            assert(tail[i] == before[i + 1]);
        }
        assert(whole[0] == before[0]);
        assert(whole.skip(1) =~= tail + (word + rest));
        words_stand_behind_spaces(tail, word, rest);
    }
}

/// Takes the first word of a text.
pub fn word_of(s: &[char]) -> (r: Vec<char>)
    ensures
        r@ == first_word(s@),
{
    let mut i: usize = 0;
    assert(s@.skip(0) =~= s@);
    while i < s.len() && char_is_space(s[i])
        invariant
            i <= s@.len(),
            trimmed_start(s@) == trimmed_start(s@.skip(i as int)),
        decreases s@.len() - i,
    {
        assert(s@.skip(i as int).skip(1) =~= s@.skip(i + 1));
        i = i + 1;
    }
    let mut out: Vec<char> = Vec::new();
    let mut j: usize = i;
    assert(out@ + head(s@.skip(i as int)) =~= head(s@.skip(i as int)));
    while j < s.len() && !char_is_space(s[j])
        invariant
            j <= s@.len(),
            out@ + head(s@.skip(j as int)) == first_word(s@),
        decreases s@.len() - j,
    {
        let ghost before = out@;
        assert(s@.skip(j as int).skip(1) =~= s@.skip(j + 1));
        out.push(s[j]);
        assert(before + (seq![s@[j as int]] + head(s@.skip(j + 1))) =~= out@ + head(
            s@.skip(j + 1),
        ));
        j = j + 1;
    }
    assert(out@ + Seq::<char>::empty() =~= out@);
    out
}

} // verus!
