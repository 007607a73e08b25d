//! Character-level text building blocks: decimal and hexadecimal rendering,
//! label escaping, joining and padding, each with the exact text it produces.
use vstd::prelude::*;
use vstd::string::*;

verus! {

/// The digit character for a value below sixteen (lower-case hexadecimal).
pub open spec fn digit_char(d: int) -> char {
    if d == 0 { '0' }
    else if d == 1 { '1' }
    else if d == 2 { '2' }
    else if d == 3 { '3' }
    else if d == 4 { '4' }
    else if d == 5 { '5' }
    else if d == 6 { '6' }
    else if d == 7 { '7' }
    else if d == 8 { '8' }
    else if d == 9 { '9' }
    else if d == 10 { 'a' }
    else if d == 11 { 'b' }
    else if d == 12 { 'c' }
    else if d == 13 { 'd' }
    else if d == 14 { 'e' }
    else { 'f' }
}

/// The decimal representation of `n`, without leading zeros.
pub open spec fn dec_text(n: nat) -> Seq<char>
    decreases n,
{
    if n < 10 {
        seq![digit_char(n as int)]
    } else {
        dec_text(n / 10).push(digit_char((n % 10) as int))
    }
}

/// The lower-case hexadecimal digits of `n`, without prefix or leading zeros.
pub open spec fn hex_digits(n: nat) -> Seq<char>
    decreases n,
{
    if n < 16 {
        seq![digit_char(n as int)]
    } else {
        hex_digits(n / 16).push(digit_char((n % 16) as int))
    }
}

/// What `format!("{:#x}", n)` writes: `0x` followed by the hexadecimal digits.
pub open spec fn hex_text(n: nat) -> Seq<char> {
    seq!['0', 'x'] + hex_digits(n)
}

/// The decimal representation of a signed value, with a leading `-` when negative.
pub open spec fn signed_text(v: int) -> Seq<char> {
    if v < 0 {
        seq!['-'] + dec_text((-v) as nat)
    } else {
        dec_text(v as nat)
    }
}

/// The value of a digit character (lower-case hexadecimal digits included), or
/// -1 for any other character.
pub open spec fn digit_value(c: char) -> int {
    if c == '0' { 0 }
    else if c == '1' { 1 }
    else if c == '2' { 2 }
    else if c == '3' { 3 }
    else if c == '4' { 4 }
    else if c == '5' { 5 }
    else if c == '6' { 6 }
    else if c == '7' { 7 }
    else if c == '8' { 8 }
    else if c == '9' { 9 }
    else if c == 'a' { 10 }
    else if c == 'b' { 11 }
    else if c == 'c' { 12 }
    else if c == 'd' { 13 }
    else if c == 'e' { 14 }
    else if c == 'f' { 15 }
    else { -1 }
}

proof fn lemma_digit_value(d: int)
    requires
        0 <= d < 16,
    ensures
        digit_value(digit_char(d)) == d,
{
}

/// The number that a string of digits in base `base` denotes.
pub open spec fn digits_value(s: Seq<char>, base: int) -> int
    decreases s.len(),
{
    if s.len() == 0 {
        0
    } else {
        digits_value(s.drop_last(), base) * base + digit_value(s.last())
    }
}

/// The decimal text of `n` is made of decimal digits only, has no leading zero
/// (unless it is `0` itself), and reads back as `n`.
pub proof fn law_dec_text(n: nat)
    ensures
        dec_text(n).len() >= 1,
        forall|i: int| 0 <= i < dec_text(n).len() ==> 0 <= #[trigger] digit_value(dec_text(n)[i]) < 10,
        dec_text(n).len() > 1 ==> dec_text(n)[0] != '0',
        (dec_text(n).len() == 1) <==> n < 10,
        digits_value(dec_text(n), 10) == n,
    decreases n,
{
    if n < 10 {
        lemma_digit_value(n as int);
        assert(dec_text(n).drop_last() =~= Seq::<char>::empty());
        assert(digits_value(dec_text(n), 10) == digits_value(Seq::<char>::empty(), 10) * 10 + digit_value(dec_text(n).last()));
    }
    if n >= 10 {
        law_dec_text(n / 10);
        let init = dec_text(n / 10);
        assert(dec_text(n).drop_last() =~= init);
        assert(dec_text(n)[0] == init[0]);
        assert forall|i: int| 0 <= i < dec_text(n).len() implies 0 <= #[trigger] digit_value(dec_text(n)[i]) < 10 by {
            if i < init.len() {
                assert(dec_text(n)[i] == init[i]);
            }
        }
        if init.len() == 1 {
            assert(n / 10 >= 1);
            lemma_digit_value((n / 10) as int);
            assert(init[0] != '0');
        }
        lemma_digit_value((n % 10) as int);
        assert(n == (n / 10) * 10 + n % 10);
        assert(dec_text(n).last() == digit_char((n % 10) as int));
        assert(digits_value(dec_text(n), 10) == digits_value(init, 10) * 10 + digit_value(dec_text(n).last()));
        assert(digits_value(init, 10) == n / 10);
        assert(digits_value(dec_text(n), 10) == (n / 10) * 10 + n % 10);
    }
}

/// The hexadecimal digits of `n` are lower-case hexadecimal digits only, have no
/// leading zero (unless `n` is zero), and read back as `n`.
pub proof fn law_hex_digits(n: nat)
    ensures
        hex_digits(n).len() >= 1,
        forall|i: int| 0 <= i < hex_digits(n).len() ==> 0 <= #[trigger] digit_value(hex_digits(n)[i]) < 16,
        hex_digits(n).len() > 1 ==> hex_digits(n)[0] != '0',
        (hex_digits(n).len() == 1) <==> n < 16,
        digits_value(hex_digits(n), 16) == n,
    decreases n,
{
    if n < 16 {
        lemma_digit_value(n as int);
        assert(hex_digits(n).drop_last() =~= Seq::<char>::empty());
        assert(digits_value(hex_digits(n), 16) == digits_value(Seq::<char>::empty(), 16) * 16 + digit_value(hex_digits(n).last()));
    }
    if n >= 16 {
        law_hex_digits(n / 16);
        let init = hex_digits(n / 16);
        assert(hex_digits(n).drop_last() =~= init);
        assert(hex_digits(n)[0] == init[0]);
        assert forall|i: int| 0 <= i < hex_digits(n).len() implies 0 <= #[trigger] digit_value(hex_digits(n)[i]) < 16 by {
            if i < init.len() {
                assert(hex_digits(n)[i] == init[i]);
            }
        }
        if init.len() == 1 {
            assert(n / 16 >= 1);
            lemma_digit_value((n / 16) as int);
            assert(init[0] != '0');
        }
        lemma_digit_value((n % 16) as int);
        assert(n == (n / 16) * 16 + n % 16);
        assert(hex_digits(n).last() == digit_char((n % 16) as int));
        assert(digits_value(hex_digits(n), 16) == digits_value(init, 16) * 16 + digit_value(hex_digits(n).last()));
        assert(digits_value(init, 16) == n / 16);
        assert(digits_value(hex_digits(n), 16) == (n / 16) * 16 + n % 16);
    }
}

/// `s` padded on the right: `s` itself, then spaces up to `width` characters.
pub proof fn law_pad_right(s: Seq<char>, width: nat)
    ensures
        pad_right(s, width).len() == if s.len() >= width { s.len() } else { width },
        pad_right(s, width).take(s.len() as int) == s,
        forall|i: int| s.len() <= i < pad_right(s, width).len() ==> #[trigger] pad_right(s, width)[i] == ' ',
{
    assert(pad_right(s, width).take(s.len() as int) =~= s);
}

/// `s` padded on the left: spaces up to `width` characters, then `s` itself.
pub proof fn law_pad_left(s: Seq<char>, width: nat)
    ensures
        pad_left(s, width).len() == if s.len() >= width { s.len() } else { width },
        pad_left(s, width).skip(pad_left(s, width).len() - s.len()) == s,
        forall|i: int| 0 <= i < pad_left(s, width).len() - s.len() ==> #[trigger] pad_left(s, width)[i] == ' ',
{
    assert(pad_left(s, width).skip(pad_left(s, width).len() - s.len()) =~= s);
}

/// Escaping works character by character: the escape of two strings one after the
/// other is their escapes one after the other, and a label with no markup
/// character in it is left as it is.
pub proof fn law_escape_text(a: Seq<char>, b: Seq<char>)
    ensures
        escape_text(a + b) == escape_text(a) + escape_text(b),
        (forall|i: int| 0 <= i < a.len() ==> !(#[trigger] breaks_label(a[i])) && a[i] != '&') ==> escape_text(a) == a,
    decreases b.len(),
{
    if b.len() > 0 {
        law_escape_text(a, b.drop_last());
        assert((a + b).drop_last() =~= a + b.drop_last());
        assert((a + b).last() == b.last());
    } else {
        assert(a + b =~= a);
    }
    lemma_escape_plain(a);
}

proof fn lemma_escape_plain(a: Seq<char>)
    ensures
        (forall|i: int| 0 <= i < a.len() ==> !(#[trigger] breaks_label(a[i])) && a[i] != '&') ==> escape_text(a) == a,
    decreases a.len(),
{
    if a.len() > 0 {
        lemma_escape_plain(a.drop_last());
        if forall|i: int| 0 <= i < a.len() ==> !(#[trigger] breaks_label(a[i])) && a[i] != '&' {
            assert forall|i: int| 0 <= i < a.drop_last().len() implies !(#[trigger] breaks_label(a.drop_last()[i])) && a.drop_last()[i] != '&' by {
                assert(a.drop_last()[i] == a[i]);
            }
            assert(!breaks_label(a[a.len() - 1]) && a[a.len() - 1] != '&');
            assert(a.drop_last().push(a.last()) =~= a);
        }
    }
}

proof fn lemma_dec_text_first(n: nat)
    ensures
        dec_text(n).len() >= 1,
        dec_text(n)[0] != '-',
    decreases n,
{
    if n >= 10 {
        lemma_dec_text_first(n / 10);
        assert(dec_text(n)[0] == dec_text(n / 10)[0]);
    }
}

/// A signed value is written with a leading `-` exactly when it is negative,
/// followed by the decimal digits of its magnitude; a value of zero or more is
/// written as its plain decimal text.
pub proof fn law_signed_text(v: int)
    ensures
        signed_text(v).len() >= 1,
        (signed_text(v)[0] == '-') <==> v < 0,
        v >= 0 ==> signed_text(v) == dec_text(v as nat),
        v < 0 ==> signed_text(v).drop_first() == dec_text((-v) as nat),
{
    if v < 0 {
        lemma_dec_text_first((-v) as nat);
        assert((seq!['-'] + dec_text((-v) as nat)).drop_first() =~= dec_text((-v) as nat));
    } else {
        lemma_dec_text_first(v as nat);
    }
}

/// `n` space characters.
pub open spec fn spaces(n: nat) -> Seq<char> {
    Seq::new(n, |i: int| ' ')
}

/// `s` followed by spaces up to `width` characters (`{:<width}`).
pub open spec fn pad_right(s: Seq<char>, width: nat) -> Seq<char> {
    if s.len() >= width { s } else { s + spaces((width - s.len()) as nat) }
}

/// Spaces followed by `s` up to `width` characters (`{:>width}`).
pub open spec fn pad_left(s: Seq<char>, width: nat) -> Seq<char> {
    if s.len() >= width { s } else { spaces((width - s.len()) as nat) + s }
}

/// The pieces of `parts` with `sep` between each two of them.
pub open spec fn join(parts: Seq<Seq<char>>, sep: Seq<char>) -> Seq<char>
    decreases parts.len(),
{
    if parts.len() == 0 {
        Seq::empty()
    } else if parts.len() == 1 {
        parts[0]
    } else {
        join(parts.drop_last(), sep) + sep + parts.last()
    }
}

/// What one character of a Mermaid label becomes.
pub open spec fn escape_char(c: char) -> Seq<char> {
    if c == '&' {
        "&amp;"@
    } else if c == '<' {
        "&lt;"@
    } else if c == '>' {
        "&gt;"@
    } else if c == '"' || c == '`' {
        seq!['\'']
    } else if c == '\n' || c == '\r' {
        seq![' ']
    } else {
        seq![c]
    }
}

/// A label with every character escaped for a Mermaid node.
pub open spec fn escape_text(s: Seq<char>) -> Seq<char>
    decreases s.len(),
{
    if s.len() == 0 {
        Seq::empty()
    } else {
        escape_text(s.drop_last()) + escape_char(s.last())
    }
}

/// A character that would end or break a Mermaid node label.
pub open spec fn breaks_label(c: char) -> bool {
    c == '"' || c == '`' || c == '<' || c == '>' || c == '\n' || c == '\r'
}

/// An escaped label holds none of the characters that end or break a Mermaid
/// node label.
pub proof fn law_escaped_label_is_safe(s: Seq<char>)
    ensures
        forall|k: int| 0 <= k < escape_text(s).len() ==> !breaks_label(#[trigger] escape_text(s)[k]),
    decreases s.len(),
{
    if s.len() > 0 {
        law_escaped_label_is_safe(s.drop_last());
        let c = s.last();
        reveal_strlit("&amp;");
        reveal_strlit("&lt;");
        reveal_strlit("&gt;");
        assert(forall|k: int| 0 <= k < escape_char(c).len() ==> !breaks_label(#[trigger] escape_char(c)[k]));
        let a = escape_text(s.drop_last());
        let b = escape_char(c);
        assert forall|k: int| 0 <= k < escape_text(s).len() implies !breaks_label(#[trigger] escape_text(s)[k]) by {
            if k < a.len() {
                assert(escape_text(s)[k] == a[k]);
            } else {
                assert(escape_text(s)[k] == b[k - a.len()]);
            }
        }
    }
}

/// Appends one character.
#[verifier::external_body]
pub(crate) fn push_char(s: &mut String, c: char)
    ensures
        final(s)@ == old(s)@.push(c),
{
    s.push(c)
}

/// The digit character of a value below sixteen.
pub fn digit(d: u128) -> (c: char)
    requires
        d < 16,
    ensures
        c == digit_char(d as int),
{
    if d == 0 { '0' }
    else if d == 1 { '1' }
    else if d == 2 { '2' }
    else if d == 3 { '3' }
    else if d == 4 { '4' }
    else if d == 5 { '5' }
    else if d == 6 { '6' }
    else if d == 7 { '7' }
    else if d == 8 { '8' }
    else if d == 9 { '9' }
    else if d == 10 { 'a' }
    else if d == 11 { 'b' }
    else if d == 12 { 'c' }
    else if d == 13 { 'd' }
    else if d == 14 { 'e' }
    else { 'f' }
}

/// Appends the decimal representation of `n`.
pub fn push_dec(out: &mut String, n: u128)
    ensures
        final(out)@ == old(out)@ + dec_text(n as nat),
    decreases n,
{
    if n >= 10 {
        push_dec(out, n / 10);
    }
    push_char(out, digit(n % 10));
    proof {
        if n >= 10 {
            assert(old(out)@ + dec_text((n / 10) as nat) + seq![digit_char((n % 10) as int)]
                =~= old(out)@ + dec_text(n as nat));
        } else {
            assert(old(out)@.push(digit_char(n as int)) =~= old(out)@ + dec_text(n as nat));
        }
    }
}

/// Appends the hexadecimal digits of `n`.
pub fn push_hex_digits(out: &mut String, n: u128)
    ensures
        final(out)@ == old(out)@ + hex_digits(n as nat),
    decreases n,
{
    if n >= 16 {
        push_hex_digits(out, n / 16);
    }
    push_char(out, digit(n % 16));
    proof {
        if n >= 16 {
            assert(old(out)@ + hex_digits((n / 16) as nat) + seq![digit_char((n % 16) as int)]
                =~= old(out)@ + hex_digits(n as nat));
        } else {
            assert(old(out)@.push(digit_char(n as int)) =~= old(out)@ + hex_digits(n as nat));
        }
    }
}

/// Appends `n` as `format!("{:#x}", n)` writes it.
pub fn push_hex(out: &mut String, n: u64)
    ensures
        final(out)@ == old(out)@ + hex_text(n as nat),
{
    push_char(out, '0');
    push_char(out, 'x');
    push_hex_digits(out, n as u128);
    assert(old(out)@.push('0').push('x') + hex_digits(n as nat) =~= old(out)@ + hex_text(n as nat));
}

/// Appends a signed value in decimal.
pub fn push_signed(out: &mut String, v: i64)
    ensures
        final(out)@ == old(out)@ + signed_text(v as int),
{
    if v < 0 {
        push_char(out, '-');
        let wide: i128 = v as i128;
        let magnitude: u128 = (0i128 - wide) as u128;
        push_dec(out, magnitude);
        assert(old(out)@.push('-') + dec_text(magnitude as nat) =~= old(out)@ + signed_text(
            v as int,
        ));
    } else {
        push_dec(out, v as u128);
    }
}

/// Appends `n` spaces.
pub fn push_spaces(out: &mut String, n: usize)
    ensures
        final(out)@ == old(out)@ + spaces(n as nat),
{
    let mut i: usize = 0;
    while i < n
        invariant
            i <= n,
            out@ == old(out)@ + spaces(i as nat),
        decreases n - i,
    {
        push_char(out, ' ');
        i = i + 1;
        assert(out@ =~= old(out)@ + spaces(i as nat));
    }
}

/// The number of characters of a string.
pub fn char_count(s: &str) -> (n: usize)
    ensures
        n == s@.len(),
{
    s.unicode_len()
}

/// Appends `s`, followed by spaces up to `width` characters.
pub fn push_padded_right(out: &mut String, s: &str, width: usize)
    ensures
        final(out)@ == old(out)@ + pad_right(s@, width as nat),
{
    out.append(s);
    let n = char_count(s);
    if n < width {
        push_spaces(out, width - n);
        assert(old(out)@ + s@ + spaces((width - n) as nat) =~= old(out)@ + pad_right(
            s@,
            width as nat,
        ));
    }
}

/// Appends spaces up to `width` characters, followed by `s`.
pub fn push_padded_left(out: &mut String, s: &str, width: usize)
    ensures
        final(out)@ == old(out)@ + pad_left(s@, width as nat),
{
    let n = char_count(s);
    if n < width {
        push_spaces(out, width - n);
        out.append(s);
        assert(old(out)@ + spaces((width - n) as nat) + s@ =~= old(out)@ + pad_left(
            s@,
            width as nat,
        ));
    } else {
        out.append(s);
    }
}

/// Appends `value` with each character escaped for a Mermaid label.
pub fn push_escaped(out: &mut String, value: &str)
    ensures
        final(out)@ == old(out)@ + escape_text(value@),
{
    broadcast use vstd::string::group_string_axioms;

    let ghost start = out@;
    for c in it: value.chars()
        invariant
            it.seq() == value@,
            out@ == start + escape_text(value@.take(it.index() as int)),
    {
        let ghost k = it.index() as int;
        assert(value@.take(k + 1).drop_last() =~= value@.take(k));
        let ghost before = out@;
        if c == '&' {
            out.append("&amp;");
        } else if c == '<' {
            out.append("&lt;");
        } else if c == '>' {
            out.append("&gt;");
        } else if c == '"' || c == '`' {
            push_char(out, '\'');
        } else if c == '\n' || c == '\r' {
            push_char(out, ' ');
        } else {
            push_char(out, c);
        }
        assert(out@ =~= before + escape_char(c));
    }
    assert(value@.take(value@.len() as int) =~= value@);
}

/// The string that holds exactly `s`.
pub fn owned(s: &str) -> (r: String)
    ensures
        r@ == s@,
{
    let mut r = String::new();
    r.append(s);
    assert(r@ =~= s@);
    r
}

} // verus!
