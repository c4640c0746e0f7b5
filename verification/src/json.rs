//! A reader for the JSON this library writes: strings, integers and arrays
//! of strings, with the laws that what the writers produce reads back.
use vstd::prelude::*;
use crate::text::{escaped, quotes_escaped, signed_decimal, decimal, numeral_value,
    lemma_escaped_concat, lemma_decimal_value};

verus! {

/// A character that JSON allows unescaped inside a string, as far as control
/// characters go (at least U+0020).
pub open spec fn is_not_control(c: char) -> bool {
    c as int >= 0x20
}

/// A text without control characters.
pub open spec fn no_control(s: Seq<char>) -> bool {
    forall|i: int| 0 <= i < s.len() ==> is_not_control(#[trigger] s[i])
}

/// A text without the character `c`.
pub open spec fn lacks(s: Seq<char>, c: char) -> bool {
    forall|i: int| 0 <= i < s.len() ==> #[trigger] s[i] != c
}

/// What a one-character JSON escape (`\"`, `\\`, `\/`, `\b`, `\f`, `\n`,
/// `\r`, `\t`) stands for. (`\u` escapes are not read: nothing here writes
/// them.)
pub open spec fn escape_target(c: char) -> Option<char> {
    if c == '"' {
        Some('"')
    } else if c == '\\' {
        Some('\\')
    } else if c == '/' {
        Some('/')
    } else if c == 'b' {
        Some('\u{8}')
    } else if c == 'f' {
        Some('\u{c}')
    } else if c == 'n' {
        Some('\n')
    } else if c == 'r' {
        Some('\r')
    } else if c == 't' {
        Some('\t')
    } else {
        None
    }
}

/// Reads the rest of a JSON string after its opening quote: the value, and
/// the text after the closing quote.
pub open spec fn string_tail(s: Seq<char>) -> Option<(Seq<char>, Seq<char>)>
    decreases s.len(),
{
    if s.len() == 0 {
        None
    } else if s[0] == '"' {
        Some((Seq::empty(), s.skip(1)))
    } else if s[0] == '\\' {
        if s.len() < 2 {
            None
        } else {
            match escape_target(s[1]) {
                Some(c) => match string_tail(s.skip(2)) {
                    Some((v, r)) => Some((seq![c] + v, r)),
                    None => None,
                },
                None => None,
            }
        }
    } else if !is_not_control(s[0]) {
        None
    } else {
        match string_tail(s.skip(1)) {
            Some((v, r)) => Some((seq![s[0]] + v, r)),
            None => None,
        }
    }
}

/// Reads a JSON string at the start of `s`: its value and the text after it.
pub open spec fn json_string(s: Seq<char>) -> Option<(Seq<char>, Seq<char>)> {
    if s.len() > 0 && s[0] == '"' {
        string_tail(s.skip(1))
    } else {
        None
    }
}

/// A decimal digit.
pub open spec fn is_digit(c: char) -> bool {
    '0' <= c <= '9'
}

/// How many decimal digits `s` starts with.
pub open spec fn leading_digits(s: Seq<char>) -> nat
    decreases s.len(),
{
    if s.len() > 0 && is_digit(s[0]) {
        1 + leading_digits(s.skip(1))
    } else {
        0
    }
}

/// Reads a JSON integer (an optional minus sign and digits, with no leading
/// zero) at the start of `s`: its value and the text after it.
pub open spec fn json_int(s: Seq<char>) -> Option<(int, Seq<char>)> {
    let negative = s.len() > 0 && s[0] == '-';
    let t = if negative {
        s.skip(1)
    } else {
        s
    };
    let k = leading_digits(t);
    if k == 0 || (k > 1 && t[0] == '0') {
        None
    } else {
        let v = numeral_value(t.take(k as int));
        Some(
            (
                if negative {
                    -v
                } else {
                    v
                },
                t.skip(k as int),
            ),
        )
    }
}

/// Reads the strings of a non-empty JSON array after its `[`, up to and
/// including the `]`, reading at most `fuel` of them.
pub open spec fn array_items(s: Seq<char>, fuel: nat) -> Option<(Seq<Seq<char>>, Seq<char>)>
    decreases fuel,
{
    if fuel == 0 {
        None
    } else {
        match json_string(s) {
            Some((v, r)) => if r.len() > 0 && r[0] == ',' {
                match array_items(r.skip(1), (fuel - 1) as nat) {
                    Some((vs, r2)) => Some((seq![v] + vs, r2)),
                    None => None,
                }
            } else if r.len() > 0 && r[0] == ']' {
                Some((seq![v], r.skip(1)))
            } else {
                None
            },
            None => None,
        }
    }
}

/// Reads a JSON array of strings at the start of `s`: the strings and the
/// text after the `]`.
pub open spec fn json_string_array(s: Seq<char>) -> Option<(Seq<Seq<char>>, Seq<char>)> {
    if s.len() > 0 && s[0] == '[' {
        let t = s.skip(1);
        if t.len() > 0 && t[0] == ']' {
            Some((Seq::empty(), t.skip(1)))
        } else {
            array_items(t, t.len())
        }
    } else {
        None
    }
}

/// A value written as a JSON string.
pub open spec fn quoted(s: Seq<char>) -> Seq<char> {
    seq!['"'] + escaped(s) + seq!['"']
}

/// The values written as JSON strings, separated by commas.
pub open spec fn quoted_list(items: Seq<Seq<char>>) -> Seq<char>
    decreases items.len(),
{
    if items.len() == 0 {
        Seq::empty()
    } else if items.len() == 1 {
        quoted(items[0])
    } else {
        quoted_list(items.drop_last()) + seq![','] + quoted(items.last())
    }
}

/// An escaped text, closed by a quote, reads back as the text.
pub proof fn lemma_string_tail_escaped(d: Seq<char>, rest: Seq<char>)
    requires
        no_control(d),
    ensures
        string_tail(escaped(d) + seq!['"'] + rest) == Some((d, rest)),
    decreases d.len(),
{
    let x = escaped(d) + seq!['"'] + rest;
    if d.len() == 0 {
        assert(escaped(d) =~= Seq::<char>::empty());
        assert(x.skip(1) =~= rest);
    } else {
        let head = d.take(1);
        let tail = d.skip(1);
        let c = d[0];
        assert(d =~= head + tail);
        lemma_escaped_concat(head, tail);
        assert(head.drop_last() =~= Seq::<char>::empty());
        assert(escaped(head.drop_last()) =~= Seq::<char>::empty());
        assert(head.last() == c);
        assert(no_control(tail)) by {
            assert forall|i: int| 0 <= i < tail.len() implies is_not_control(#[trigger] tail[i]) by {
                assert(tail[i] == d[i + 1]);
            }
        }
        lemma_string_tail_escaped(tail, rest);
        let inner = escaped(tail) + seq!['"'] + rest;
        if c == '\\' || c == '"' {
            assert(escaped(head) =~= seq!['\\', c]);
            assert(x =~= seq!['\\', c] + inner);
            assert(x.skip(2) =~= inner);
        } else {
            assert(escaped(head) =~= seq![c]);
            assert(x =~= seq![c] + inner);
            assert(x.skip(1) =~= inner);
            assert(is_not_control(d[0]));
        }
        assert(seq![c] + tail =~= d);
    }
}

/// A value written as a JSON string reads back as the value.
pub proof fn lemma_json_string_quoted(d: Seq<char>, rest: Seq<char>)
    requires
        no_control(d),
    ensures
        json_string(quoted(d) + rest) == Some((d, rest)),
{
    lemma_string_tail_escaped(d, rest);
    let x = quoted(d) + rest;
    assert(x.skip(1) =~= escaped(d) + seq!['"'] + rest);
}

/// Escaping only quotes is the full escape when there is no backslash.
pub proof fn lemma_quotes_escaped_without_backslash(s: Seq<char>)
    requires
        lacks(s, '\\'),
    ensures
        quotes_escaped(s) == escaped(s),
    decreases s.len(),
{
    if s.len() > 0 {
        assert(lacks(s.drop_last(), '\\')) by {
            assert forall|i: int| 0 <= i < s.drop_last().len() implies #[trigger] s.drop_last()[i] != '\\' by {
                assert(s.drop_last()[i] == s[i]);
            }
        }
        lemma_quotes_escaped_without_backslash(s.drop_last());
        assert(s.last() == s[s.len() - 1]);
    }
}

/// A text without quotes and backslashes is its own escape.
pub proof fn lemma_escaped_plain(s: Seq<char>)
    requires
        lacks(s, '\\'),
        lacks(s, '"'),
    ensures
        escaped(s) == s,
    decreases s.len(),
{
    if s.len() > 0 {
        let p = s.drop_last();
        assert(lacks(p, '\\') && lacks(p, '"')) by {
            assert forall|i: int| 0 <= i < p.len() implies #[trigger] p[i] != '\\' && p[i] != '"' by {
                assert(p[i] == s[i]);
            }
        }
        lemma_escaped_plain(p);
        assert(s.last() == s[s.len() - 1]);
        assert(p.push(s.last()) =~= s);
    }
}

/// A run of digits followed by a non-digit is read up to that non-digit.
pub proof fn lemma_leading_digits(a: Seq<char>, b: Seq<char>)
    requires
        forall|i: int| 0 <= i < a.len() ==> is_digit(#[trigger] a[i]),
        b.len() == 0 || !is_digit(b[0]),
    ensures
        leading_digits(a + b) == a.len(),
    decreases a.len(),
{
    if a.len() > 0 {
        let t = a.skip(1);
        assert((a + b).skip(1) =~= t + b);
        assert forall|i: int| 0 <= i < t.len() implies is_digit(#[trigger] t[i]) by {
            assert(t[i] == a[i + 1]);
        }
        assert(is_digit(a[0]));
        assert((a + b)[0] == a[0]);
        lemma_leading_digits(t, b);
    } else {
        assert(a + b =~= b);
    }
}

/// An integer written in decimal, followed by a non-digit, reads back as the
/// integer.
pub proof fn lemma_json_int_decimal(n: int, rest: Seq<char>)
    requires
        rest.len() == 0 || !is_digit(rest[0]),
    ensures
        json_int(signed_decimal(n) + rest) == Some((n, rest)),
{
    let m: nat = if n < 0 {
        (-n) as nat
    } else {
        n as nat
    };
    lemma_decimal_value(m);
    let d = decimal(m);
    assert forall|i: int| 0 <= i < d.len() implies is_digit(#[trigger] d[i]) by {}
    lemma_leading_digits(d, rest);
    assert((d + rest).take(d.len() as int) =~= d);
    assert((d + rest).skip(d.len() as int) =~= rest);
    if n < 0 {
        let s = signed_decimal(n) + rest;
        assert(s =~= seq!['-'] + (d + rest));
        assert(s.skip(1) =~= d + rest);
    } else {
        assert(is_digit(d[0]));
        assert((d + rest)[0] == d[0]);
    }
}

/// Every value of a list takes at least one character of its text.
pub proof fn lemma_quoted_list_len(xs: Seq<Seq<char>>)
    ensures
        quoted_list(xs).len() >= xs.len(),
    decreases xs.len(),
{
    if xs.len() > 1 {
        lemma_quoted_list_len(xs.drop_last());
    }
}

/// A list of two or more values starts with the first value and a comma.
pub proof fn lemma_quoted_list_front(xs: Seq<Seq<char>>)
    requires
        xs.len() >= 2,
    ensures
        quoted_list(xs) == quoted(xs[0]) + seq![','] + quoted_list(xs.skip(1)),
    decreases xs.len(),
{
    let t = xs.skip(1);
    if xs.len() == 2 {
        assert(xs.drop_last().len() == 1);
        assert(xs.drop_last()[0] == xs[0]);
        assert(t.len() == 1);
        assert(t[0] == xs.last());
        assert(quoted_list(xs.drop_last()) == quoted(xs[0]));
        assert(quoted_list(t) == quoted(xs.last()));
    } else {
        let p = xs.drop_last();
        lemma_quoted_list_front(p);
        assert(p[0] == xs[0]);
        assert(p.skip(1) =~= t.drop_last());
        assert(t.last() == xs.last());
        assert(t.len() >= 2);
        assert(quoted_list(t) == quoted_list(t.drop_last()) + seq![','] + quoted(t.last()));
        assert(quoted_list(xs) =~= quoted(xs[0]) + seq![','] + quoted_list(t));
    }
}

/// A non-empty list of values, closed by `]`, reads back as the values.
pub proof fn lemma_array_items(xs: Seq<Seq<char>>, rest: Seq<char>, fuel: nat)
    requires
        xs.len() >= 1,
        fuel >= xs.len(),
        forall|i: int| 0 <= i < xs.len() ==> no_control(#[trigger] xs[i]),
    ensures
        array_items(quoted_list(xs) + seq![']'] + rest, fuel) == Some((xs, rest)),
    decreases xs.len(),
{
    let s = quoted_list(xs) + seq![']'] + rest;
    assert(no_control(xs[0]));
    if xs.len() == 1 {
        assert(s =~= quoted(xs[0]) + (seq![']'] + rest));
        lemma_json_string_quoted(xs[0], seq![']'] + rest);
        assert((seq![']'] + rest).skip(1) =~= rest);
        assert(seq![xs[0]] =~= xs);
    } else {
        let t = xs.skip(1);
        lemma_quoted_list_front(xs);
        let r = seq![','] + quoted_list(t) + seq![']'] + rest;
        assert(s =~= quoted(xs[0]) + r);
        lemma_json_string_quoted(xs[0], r);
        assert(r.skip(1) =~= quoted_list(t) + seq![']'] + rest);
        assert forall|i: int| 0 <= i < t.len() implies no_control(#[trigger] t[i]) by {
            assert(t[i] == xs[i + 1]);
        }
        lemma_array_items(t, rest, (fuel - 1) as nat);
        assert(seq![xs[0]] + t =~= xs);
    }
}

/// A list of values written as a JSON array reads back as the values.
pub proof fn lemma_json_string_array(xs: Seq<Seq<char>>, rest: Seq<char>)
    requires
        forall|i: int| 0 <= i < xs.len() ==> no_control(#[trigger] xs[i]),
    ensures
        json_string_array(seq!['['] + quoted_list(xs) + seq![']'] + rest) == Some((xs, rest)),
{
    let s = seq!['['] + quoted_list(xs) + seq![']'] + rest;
    let t = s.skip(1);
    assert(t =~= quoted_list(xs) + seq![']'] + rest);
    if xs.len() == 0 {
        assert(quoted_list(xs) =~= Seq::<char>::empty());
        assert(t =~= seq![']'] + rest);
        assert(t.skip(1) =~= rest);
        assert(xs =~= Seq::<Seq<char>>::empty());
    } else {
        lemma_quoted_list_len(xs);
        if xs.len() == 1 {
            assert(quoted_list(xs) == quoted(xs[0]));
        } else {
            lemma_quoted_list_front(xs);
        }
        assert(t[0] == '"');
        lemma_array_items(xs, rest, t.len());
    }
}

} // verus!
