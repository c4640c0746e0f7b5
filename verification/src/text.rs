//! Text building blocks: JSON string escaping and decimal numerals.
use vstd::prelude::*;

verus! {

/// Appends one character to a string (`String::push`).
#[verifier::external_body]
pub fn push_char(s: &mut String, c: char)
    ensures
        final(s)@ == old(s)@.push(c),
{
    s.push(c);
}

/// `s` with a backslash put before every backslash and every double quote,
/// which is how a value is written inside a JSON string literal.
pub open spec fn escaped(s: Seq<char>) -> Seq<char>
    decreases s.len(),
{
    if s.len() == 0 {
        Seq::empty()
    } else {
        let c = s.last();
        let prev = escaped(s.drop_last());
        if c == '\\' || c == '"' {
            prev.push('\\').push(c)
        } else {
            prev.push(c)
        }
    }
}

/// `s` with a backslash put before every double quote (backslashes are left
/// as they are).
pub open spec fn quotes_escaped(s: Seq<char>) -> Seq<char>
    decreases s.len(),
{
    if s.len() == 0 {
        Seq::empty()
    } else {
        let c = s.last();
        let prev = quotes_escaped(s.drop_last());
        if c == '"' {
            prev.push('\\').push(c)
        } else {
            prev.push(c)
        }
    }
}

/// Reads a JSON-escaped text back: a backslash stands for the character
/// that follows it.
pub open spec fn unescaped(s: Seq<char>) -> Seq<char>
    decreases s.len(),
{
    if s.len() == 0 {
        Seq::empty()
    } else if s[0] == '\\' && s.len() >= 2 {
        seq![s[1]] + unescaped(s.skip(2))
    } else {
        seq![s[0]] + unescaped(s.skip(1))
    }
}

/// Escapes backslashes and double quotes in `s` (`s.replace('\\', "\\\\").replace('"', "\\\"")`).
pub fn escape(s: &str) -> (r: String)
    ensures
        r@ == escaped(s@),
{
    let mut out = String::new();
    let ghost mut done: int = 0;
    for c in it: s.chars()
        invariant
            it.seq() == s@,
            done == it.index(),
            out@ == escaped(s@.take(done)),
    {
        assert(s@.take(done + 1).drop_last() == s@.take(done));
        if c == '\\' || c == '"' {
            push_char(&mut out, '\\');
        }
        push_char(&mut out, c);
        proof {
            done = done + 1;
        }
    }
    assert(s@.take(done) == s@);
    out
}

/// Escapes double quotes in `s` (`s.replace('"', "\\\"")`).
pub fn escape_quotes(s: &str) -> (r: String)
    ensures
        r@ == quotes_escaped(s@),
{
    let mut out = String::new();
    let ghost mut done: int = 0;
    for c in it: s.chars()
        invariant
            it.seq() == s@,
            done == it.index(),
            out@ == quotes_escaped(s@.take(done)),
    {
        assert(s@.take(done + 1).drop_last() == s@.take(done));
        if c == '"' {
            push_char(&mut out, '\\');
        }
        push_char(&mut out, c);
        proof {
            done = done + 1;
        }
    }
    assert(s@.take(done) == s@);
    out
}

/// Escaping distributes over concatenation.
pub proof fn lemma_escaped_concat(a: Seq<char>, b: Seq<char>)
    ensures
        escaped(a + b) == escaped(a) + escaped(b),
    decreases b.len(),
{
    if b.len() == 0 {
        assert(a + b == a);
        assert(escaped(b) == Seq::<char>::empty());
        assert(escaped(a) + escaped(b) == escaped(a));
    } else {
        assert((a + b).drop_last() == a + b.drop_last());
        assert((a + b).last() == b.last());
        lemma_escaped_concat(a, b.drop_last());
        let c = b.last();
        if c == '\\' || c == '"' {
            assert(escaped(a) + escaped(b.drop_last()).push('\\').push(c)
                == (escaped(a) + escaped(b.drop_last())).push('\\').push(c));
        } else {
            assert(escaped(a) + escaped(b.drop_last()).push(c)
                == (escaped(a) + escaped(b.drop_last())).push(c));
        }
    }
}

/// Reading an escaped text back gives the text that was escaped: the
/// escape loses nothing, so distinct values give distinct JSON strings.
pub proof fn lemma_unescape_escaped(s: Seq<char>)
    ensures
        unescaped(escaped(s)) == s,
    decreases s.len(),
{
    if s.len() > 0 {
        let head = s.take(1);
        let tail = s.skip(1);
        assert(s == head + tail);
        lemma_escaped_concat(head, tail);
        assert(head.drop_last() =~= Seq::<char>::empty());
        assert(escaped(head.drop_last()) =~= Seq::<char>::empty());
        assert(head.last() == s[0]);
        let e = escaped(s);
        lemma_unescape_escaped(tail);
        if s[0] == '\\' || s[0] == '"' {
            assert(escaped(head) =~= seq!['\\', s[0]]);
            assert(e[0] == '\\');
            assert(e[1] == s[0]);
            assert(e.skip(2) == escaped(tail));
        } else {
            assert(escaped(head) =~= seq![s[0]]);
            assert(e[0] == s[0]);
            assert(e.skip(1) == escaped(tail));
        }
        assert(seq![s[0]] + tail == s);
    }
}

/// The character of the decimal digit `d`.
pub open spec fn digit(d: nat) -> char {
    (d + 48) as char
}

/// The decimal numeral of `n`, most significant digit first, without
/// leading zeros.
pub open spec fn decimal(n: nat) -> Seq<char>
    decreases n,
{
    if n < 10 {
        seq![digit(n)]
    } else {
        decimal(n / 10).push(digit(n % 10))
    }
}

/// The decimal numeral of `n`, with a leading minus sign when it is negative.
pub open spec fn signed_decimal(n: int) -> Seq<char> {
    if n < 0 {
        seq!['-'] + decimal((-n) as nat)
    } else {
        decimal(n as nat)
    }
}

/// The value of a string of decimal digits.
pub open spec fn numeral_value(s: Seq<char>) -> int
    decreases s.len(),
{
    if s.len() == 0 {
        0
    } else {
        numeral_value(s.drop_last()) * 10 + (s.last() as int - 48)
    }
}

/// The value of a numeral with an optional leading minus sign.
pub open spec fn signed_numeral_value(s: Seq<char>) -> int {
    if s.len() > 0 && s[0] == '-' {
        -numeral_value(s.skip(1))
    } else {
        numeral_value(s)
    }
}

/// A decimal numeral reads back as the number it was written for.
pub proof fn lemma_decimal_value(n: nat)
    ensures
        numeral_value(decimal(n)) == n,
        decimal(n).len() > 0,
        decimal(n).len() == 1 || decimal(n)[0] != '0',
        forall|i: int| 0 <= i < decimal(n).len() ==> '0' <= #[trigger] decimal(n)[i] <= '9',
    decreases n,
{
    assert(digit(n % 10) as int == n % 10 + 48);
    if n >= 10 {
        lemma_decimal_value(n / 10);
        let d = decimal(n);
        assert(d.drop_last() == decimal(n / 10));
        assert(d.last() == digit(n % 10));
        assert((n / 10) * 10 + n % 10 == n) by (nonlinear_arith);
        assert forall|i: int| 0 <= i < d.len() implies '0' <= #[trigger] d[i] <= '9' by {
            if i < d.len() - 1 {
                assert(d[i] == decimal(n / 10)[i]);
            }
        }
        assert(numeral_value(d) == numeral_value(d.drop_last()) * 10 + (d.last() as int - 48));
        assert(d[0] == decimal(n / 10)[0]);
        if decimal(n / 10).len() == 1 {
            if n / 10 >= 10 {
                lemma_decimal_value(n / 10 / 10);
                assert(decimal(n / 10).len() == decimal(n / 10 / 10).len() + 1);
            }
            assert(n / 10 >= 1 && n / 10 < 10);
            assert(decimal(n / 10)[0] == digit(n / 10));
            assert(digit(n / 10) as int == n / 10 + 48);
        }
        assert(numeral_value(d) == (n / 10) * 10 + n % 10);
    } else {
        assert(digit(n) as int == n + 48);
        assert(decimal(n).drop_last() =~= Seq::<char>::empty());
        assert(numeral_value(decimal(n).drop_last()) == 0);
    }
}

/// The decimal numeral is the canonical one: digits only, reading back as
/// the number, and with no leading zero (the numeral of zero is `0`).
pub proof fn lemma_decimal_canonical(n: nat)
    ensures
        forall|i: int| 0 <= i < decimal(n).len() ==> '0' <= #[trigger] decimal(n)[i] <= '9',
        numeral_value(decimal(n)) == n,
        n == 0 ==> decimal(n) == seq!['0'],
        n > 0 ==> decimal(n)[0] != '0',
{
    lemma_decimal_value(n);
    if n == 0 {
        assert(digit(0) == '0');
        assert(decimal(n) =~= seq!['0']);
    } else if decimal(n).len() == 1 && decimal(n)[0] == '0' {
        assert(decimal(n).drop_last() =~= Seq::<char>::empty());
        assert(numeral_value(decimal(n)) == numeral_value(decimal(n).drop_last()) * 10 + (
        decimal(n).last() as int - 48));
    }
}

/// A signed decimal numeral reads back as the number it was written for.
pub proof fn lemma_signed_decimal_value(n: int)
    ensures
        signed_numeral_value(signed_decimal(n)) == n,
{
    if n < 0 {
        lemma_decimal_value((-n) as nat);
        let s = signed_decimal(n);
        assert(s.skip(1) == decimal((-n) as nat));
    } else {
        lemma_decimal_value(n as nat);
        assert(decimal(n as nat)[0] != '-');
    }
}

fn digit_char(d: u64) -> (c: char)
    requires
        d < 10,
    ensures
        c == digit(d as nat),
{
    ((d as u8) + 48) as char
}

/// Appends the decimal numeral of `n` to `out`.
pub fn push_decimal(out: &mut String, n: u64)
    ensures
        final(out)@ == old(out)@ + decimal(n as nat),
    decreases n,
{
    if n >= 10 {
        push_decimal(out, n / 10);
    }
    push_char(out, digit_char(n % 10));
    proof {
        if n >= 10 {
            assert(old(out)@ + decimal((n / 10) as nat).push(digit((n % 10) as nat))
                == (old(out)@ + decimal((n / 10) as nat)).push(digit((n % 10) as nat)));
        }
    }
}

/// Appends the decimal numeral of `n`, with its sign, to `out`.
pub fn push_signed_decimal(out: &mut String, n: i64)
    ensures
        final(out)@ == old(out)@ + signed_decimal(n as int),
{
    if n < 0 {
        push_char(out, '-');
        let magnitude: u64 = (-(n as i128)) as u64;
        push_decimal(out, magnitude);
        assert(old(out)@.push('-') + decimal(magnitude as nat) == old(out)@ + (seq!['-']
            + decimal(magnitude as nat)));
    } else {
        push_decimal(out, n as u64);
    }
}

} // verus!
