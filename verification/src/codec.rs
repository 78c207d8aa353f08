//! The wire codec for [`Message`].
//!
//! A message travels as a flat key/value text document: six lines, one per
//! field, in fixed order. The stamp line holds a signed decimal; every other
//! line holds the field in double quotes, with `\\`, `\"`, `\n`, `\r` and
//! `\t` escaped. The parser accepts exactly this canonical form and nothing
//! else; [`lemma_parse_ser`] proves that parsing a serialized message gives
//! back the message, field for field.

use vstd::prelude::*;
use vstd::arithmetic::div_mod::lemma_fundamental_div_mod;
use vstd::std_specs::iter::IteratorSpec;
use crate::message::{Message, MessageView};

verus! {

// ---------------------------------------------------------------------------
// Decimal numbers
// ---------------------------------------------------------------------------

/// The character for one decimal digit.
pub open spec fn digit_char(d: int) -> char {
    if d == 0 {
        '0'
    } else if d == 1 {
        '1'
    } else if d == 2 {
        '2'
    } else if d == 3 {
        '3'
    } else if d == 4 {
        '4'
    } else if d == 5 {
        '5'
    } else if d == 6 {
        '6'
    } else if d == 7 {
        '7'
    } else if d == 8 {
        '8'
    } else {
        '9'
    }
}

/// The value of one decimal digit character, or -1 for any other character.
pub open spec fn char_digit(c: char) -> int {
    if c == '0' {
        0
    } else if c == '1' {
        1
    } else if c == '2' {
        2
    } else if c == '3' {
        3
    } else if c == '4' {
        4
    } else if c == '5' {
        5
    } else if c == '6' {
        6
    } else if c == '7' {
        7
    } else if c == '8' {
        8
    } else if c == '9' {
        9
    } else {
        -1
    }
}

pub open spec fn is_digit_char(c: char) -> bool {
    char_digit(c) >= 0
}

/// The decimal digits of a natural number, most significant first.
pub open spec fn dec_nat(n: nat) -> Seq<char>
    decreases n,
{
    if n < 10 {
        seq![digit_char(n as int)]
    } else {
        dec_nat(n / 10).push(digit_char((n % 10) as int))
    }
}

/// The decimal form of an integer: a minus sign where negative.
pub open spec fn dec_int(n: int) -> Seq<char> {
    if n < 0 {
        seq!['-'] + dec_nat((-n) as nat)
    } else {
        dec_nat(n as nat)
    }
}

/// The value of a sequence of decimal digit characters.
pub open spec fn digits_val(ds: Seq<char>) -> int
    decreases ds.len(),
{
    if ds.len() == 0 {
        0
    } else {
        digits_val(ds.drop_last()) * 10 + char_digit(ds.last())
    }
}

pub open spec fn pow10(k: nat) -> int
    decreases k,
{
    if k == 0 {
        1
    } else {
        10 * pow10((k - 1) as nat)
    }
}

proof fn lemma_dec_nat_digits(n: nat)
    ensures
        dec_nat(n).len() >= 1,
        forall|k: int| 0 <= k < dec_nat(n).len() ==> is_digit_char(#[trigger] dec_nat(n)[k]),
    decreases n,
{
    if n >= 10 {
        lemma_dec_nat_digits(n / 10);
    }
}

proof fn lemma_digits_val_dec_nat(n: nat)
    ensures
        digits_val(dec_nat(n)) == n,
    decreases n,
{
    if n < 10 {
        assert(digits_val(Seq::<char>::empty()) == 0);
        assert(dec_nat(n).drop_last() =~= Seq::<char>::empty());
    } else {
        lemma_digits_val_dec_nat(n / 10);
        lemma_fundamental_div_mod(n as int, 10);
        assert(dec_nat(n).drop_last() =~= dec_nat(n / 10));
    }
}

/// The value of a digit sequence, split at its first digit.
proof fn lemma_digits_val_cons(ds: Seq<char>)
    requires
        ds.len() >= 1,
    ensures
        digits_val(ds) == char_digit(ds[0]) * pow10((ds.len() - 1) as nat) + digits_val(
            ds.drop_first(),
        ),
    decreases ds.len(),
{
    if ds.len() == 1 {
        assert(digits_val(Seq::<char>::empty()) == 0);
        assert(ds.drop_last() =~= Seq::<char>::empty());
        assert(ds.drop_first() =~= Seq::<char>::empty());
        assert(pow10(0) == 1);
    } else {
        let front = ds.drop_last();
        let rest = ds.drop_first();
        let d0 = char_digit(ds[0]);
        let p = pow10((ds.len() - 2) as nat);
        lemma_digits_val_cons(front);
        assert(front[0] == ds[0]);
        assert(front.drop_first() =~= rest.drop_last());
        assert(rest.last() == ds.last());
        assert(digits_val(ds) == digits_val(front) * 10 + char_digit(ds.last()));
        assert(digits_val(rest) == digits_val(rest.drop_last()) * 10 + char_digit(rest.last()));
        assert(digits_val(front) == d0 * p + digits_val(rest.drop_last()));
        assert(pow10((ds.len() - 1) as nat) == 10 * p);
        assert((d0 * p + digits_val(rest.drop_last())) * 10 == d0 * (10 * p) + digits_val(
            rest.drop_last(),
        ) * 10) by (nonlinear_arith);
        assert(digits_val(ds) == d0 * (10 * p) + digits_val(rest));
    }
}

// ---------------------------------------------------------------------------
// Escaping
// ---------------------------------------------------------------------------

/// The characters that the serializer escapes inside quotes.
pub open spec fn needs_escape(c: char) -> bool {
    c == '\\' || c == '"' || c == '\n' || c == '\r' || c == '\t'
}

/// The character written after the backslash.
pub open spec fn escape_code(c: char) -> char {
    if c == '\n' {
        'n'
    } else if c == '\r' {
        'r'
    } else if c == '\t' {
        't'
    } else {
        c
    }
}

/// The characters the parser accepts after a backslash.
pub open spec fn is_escape_code(c: char) -> bool {
    c == '\\' || c == '"' || c == 'n' || c == 'r' || c == 't'
}

/// The character an escape code stands for.
pub open spec fn unescape_code(c: char) -> char {
    if c == 'n' {
        '\n'
    } else if c == 'r' {
        '\r'
    } else if c == 't' {
        '\t'
    } else {
        c
    }
}

/// One character in its escaped form.
pub open spec fn esc_char(c: char) -> Seq<char> {
    if needs_escape(c) {
        seq!['\\', escape_code(c)]
    } else {
        seq![c]
    }
}

/// A whole field in its escaped form.
pub open spec fn esc(p: Seq<char>) -> Seq<char>
    decreases p.len(),
{
    if p.len() == 0 {
        Seq::<char>::empty()
    } else {
        esc_char(p[0]) + esc(p.drop_first())
    }
}

/// Escaping distributes over appending one character; this is what a loop
/// that escapes left to right extends its result by.
proof fn lemma_esc_push(p: Seq<char>, c: char)
    ensures
        esc(p.push(c)) == esc(p) + esc_char(c),
    decreases p.len(),
{
    if p.len() == 0 {
        assert(esc(Seq::<char>::empty()) == Seq::<char>::empty());
        assert(p =~= Seq::<char>::empty());
        assert(p.push(c)[0] == c);
        assert(p.push(c).drop_first() =~= Seq::<char>::empty());
        assert(esc(p.push(c)) =~= esc(p) + esc_char(c));
    } else {
        lemma_esc_push(p.drop_first(), c);
        assert(p.push(c).drop_first() =~= p.drop_first().push(c));
        assert(esc(p.push(c)) =~= esc(p) + esc_char(c));
    }
}

// ---------------------------------------------------------------------------
// The grammar, as total scan functions over the character sequence
// ---------------------------------------------------------------------------

/// Whether `lit` occurs in `s` at position `i`.
pub open spec fn match_lit(s: Seq<char>, i: int, lit: Seq<char>) -> bool {
    0 <= i && i + lit.len() <= s.len() && s.subrange(i, i + lit.len()) == lit
}

/// Consumes decimal digits from position `i` on, folding them onto `acc`;
/// yields the value and the position of the first non-digit.
pub open spec fn scan_digits(s: Seq<char>, i: int, acc: int) -> (int, int)
    decreases s.len() - i,
    when 0 <= i <= s.len()
{
    if i < s.len() && is_digit_char(s[i]) {
        scan_digits(s, i + 1, acc * 10 + char_digit(s[i]))
    } else {
        (acc, i)
    }
}

/// Consumes a quoted payload from position `i` (the opening quote already
/// consumed) up to and including the closing quote; yields the unescaped
/// payload appended to `acc` and the position after the closing quote.
pub open spec fn scan_quoted(s: Seq<char>, i: int, acc: Seq<char>) -> Option<(Seq<char>, int)>
    decreases s.len() - i,
    when 0 <= i <= s.len()
{
    if i >= s.len() {
        None
    } else if s[i] == '"' {
        Some((acc, i + 1))
    } else if s[i] == '\\' {
        if i + 1 < s.len() && is_escape_code(s[i + 1]) {
            scan_quoted(s, i + 2, acc.push(unescape_code(s[i + 1])))
        } else {
            None
        }
    } else {
        scan_quoted(s, i + 1, acc.push(s[i]))
    }
}

/// A signed decimal followed by a newline, starting at `i` (the key already
/// consumed); yields the value and the position after the newline.
pub open spec fn parse_stamp_line(s: Seq<char>, i: int) -> Option<(int, int)> {
    if !(0 <= i <= s.len()) {
        None
    } else {
        let neg = i < s.len() && s[i] == '-';
        let start = if neg {
            i + 1
        } else {
            i
        };
        let (v0, j) = scan_digits(s, start, 0);
        let v = if neg {
            -v0
        } else {
            v0
        };
        if j > start && j < s.len() && s[j] == '\n' && i64::MIN <= v <= i64::MAX {
            Some((v, j + 1))
        } else {
            None
        }
    }
}

/// One quoted line: the key (which ends in the opening quote), the payload,
/// the closing quote, a newline; yields the payload and the position after
/// the newline.
pub open spec fn parse_quoted_line(s: Seq<char>, i: int, key: Seq<char>) -> Option<
    (Seq<char>, int),
> {
    if !match_lit(s, i, key) {
        None
    } else {
        match scan_quoted(s, i + key.len(), Seq::<char>::empty()) {
            Some(pj) => {
                let (p, j) = pj;
                if j < s.len() && s[j] == '\n' {
                    Some((p, j + 1))
                } else {
                    None
                }
            },
            None => None,
        }
    }
}

/// Splits knowledge of a region of `s` holding `a + b` into its two parts.
proof fn lemma_subrange_shift(s: Seq<char>, i: int, a: Seq<char>, b: Seq<char>)
    requires
        0 <= i,
        i + a.len() + b.len() <= s.len(),
        s.subrange(i, i + a.len() + b.len()) == a + b,
    ensures
        s.subrange(i, i + a.len()) == a,
        s.subrange(i + a.len(), i + a.len() + b.len()) == b,
{
    let al = a.len() as int;
    let bl = b.len() as int;
    s.lemma_slice_of_slice(i, i + al + bl, 0, al);
    assert((a + b).subrange(0, al) =~= a);
    s.lemma_slice_of_slice(i, i + al + bl, al, al + bl);
    assert((a + b).subrange(al, al + bl) =~= b);
}

proof fn lemma_scan_digit_region(s: Seq<char>, i: int, ds: Seq<char>, acc: int)
    requires
        0 <= i,
        i + ds.len() <= s.len(),
        s.subrange(i, i + ds.len()) == ds,
        forall|k: int| 0 <= k < ds.len() ==> is_digit_char(#[trigger] ds[k]),
        i + ds.len() == s.len() || !is_digit_char(s[i + ds.len()]),
    ensures
        scan_digits(s, i, acc) == (acc * pow10(ds.len()) + digits_val(ds), i + ds.len()),
    decreases ds.len(),
{
    if ds.len() == 0 {
        assert(digits_val(ds) == 0);
        assert(pow10(0) == 1);
    } else {
        let rest = ds.drop_first();
        let d0 = char_digit(ds[0]);
        assert(s[i] == ds[0]);
        assert(s.subrange(i + 1, i + 1 + rest.len()) =~= rest);
        lemma_scan_digit_region(s, i + 1, rest, acc * 10 + d0);
        lemma_digits_val_cons(ds);
        let p = pow10((ds.len() - 1) as nat);
        assert(pow10(ds.len()) == 10 * p);
        assert((acc * 10 + d0) * p == acc * (10 * p) + d0 * p) by (nonlinear_arith);
    }
}

proof fn lemma_parse_stamp_region(s: Seq<char>, i: int, v: int)
    requires
        0 <= i,
        i64::MIN <= v <= i64::MAX,
        i + dec_int(v).len() + 1 <= s.len(),
        s.subrange(i, i + dec_int(v).len()) == dec_int(v),
        s[i + dec_int(v).len()] == '\n',
    ensures
        parse_stamp_line(s, i) == Some((v, i + dec_int(v).len() + 1)),
{
    if v >= 0 {
        let ds = dec_nat(v as nat);
        lemma_dec_nat_digits(v as nat);
        lemma_digits_val_dec_nat(v as nat);
        assert(s[i] == ds[0]);
        lemma_scan_digit_region(s, i, ds, 0);
    } else {
        let mag = dec_nat((-v) as nat);
        lemma_dec_nat_digits((-v) as nat);
        lemma_digits_val_dec_nat((-v) as nat);
        assert(dec_int(v) =~= seq!['-'] + mag);
        lemma_subrange_shift(s, i, seq!['-'], mag);
        assert(s.subrange(i, i + 1)[0] == s[i]);
        assert(s[i] == '-');
        lemma_scan_digit_region(s, i + 1, mag, 0);
    }
}

proof fn lemma_scan_esc(s: Seq<char>, i: int, p: Seq<char>, acc: Seq<char>)
    requires
        0 <= i,
        i + esc(p).len() + 1 <= s.len(),
        s.subrange(i, i + esc(p).len()) == esc(p),
        s[i + esc(p).len()] == '"',
    ensures
        scan_quoted(s, i, acc) == Some((acc + p, i + esc(p).len() + 1)),
    decreases p.len(),
{
    if p.len() == 0 {
        assert(esc(p) == Seq::<char>::empty());
        assert(acc + p =~= acc);
    } else {
        let c = p[0];
        let rest = p.drop_first();
        assert(esc(p) == esc_char(c) + esc(rest));
        lemma_subrange_shift(s, i, esc_char(c), esc(rest));
        if needs_escape(c) {
            assert(s.subrange(i, i + 2)[0] == s[i]);
            assert(s.subrange(i, i + 2)[1] == s[i + 1]);
            assert(s[i] == '\\');
            assert(s[i + 1] == escape_code(c));
            assert(is_escape_code(escape_code(c)));
            assert(unescape_code(escape_code(c)) == c);
            lemma_scan_esc(s, i + 2, rest, acc.push(c));
            assert(acc.push(c) + rest =~= acc + p);
        } else {
            assert(s.subrange(i, i + 1)[0] == s[i]);
            assert(s[i] == c);
            assert(c != '"' && c != '\\');
            lemma_scan_esc(s, i + 1, rest, acc.push(c));
            assert(acc.push(c) + rest =~= acc + p);
        }
    }
}

proof fn lemma_parse_quoted_region(s: Seq<char>, i: int, key: Seq<char>, p: Seq<char>)
    requires
        0 <= i,
        i + key.len() + esc(p).len() + 2 <= s.len(),
        s.subrange(i, i + key.len()) == key,
        s.subrange(i + key.len(), i + key.len() + esc(p).len()) == esc(p),
        s[i + key.len() + esc(p).len()] == '"',
        s[i + key.len() + esc(p).len() + 1] == '\n',
    ensures
        parse_quoted_line(s, i, key) == Some((p, i + key.len() + esc(p).len() + 2)),
{
    lemma_scan_esc(s, i + key.len(), p, Seq::<char>::empty());
    assert(Seq::<char>::empty() + p =~= p);
}

/// The serialized stamp line.
pub open spec fn ser_stamp_line(v: int) -> Seq<char> {
    "stamp = "@ + dec_int(v) + seq!['\n']
}

/// One serialized quoted line; `key` ends in the opening quote.
pub open spec fn ser_quoted_line(key: Seq<char>, p: Seq<char>) -> Seq<char> {
    key + esc(p) + seq!['"', '\n']
}

/// The serialized form of a message: six lines in fixed order.
pub open spec fn ser_msg(m: MessageView) -> Seq<char> {
    ser_stamp_line(m.stamp) + ser_quoted_line("from = \""@, m.from) + ser_quoted_line(
        "event = \""@,
        m.event,
    ) + ser_quoted_line("action = \""@, m.action) + ser_quoted_line("target = \""@, m.target)
        + ser_quoted_line("data = \""@, m.data)
}

/// The parse of a whole document: the six lines in order, nothing after.
pub open spec fn parse_msg(s: Seq<char>) -> Option<MessageView> {
    if !match_lit(s, 0, "stamp = "@) {
        None
    } else {
        match parse_stamp_line(s, "stamp = "@.len() as int) {
            None => None,
            Some(sv) => {
                let (stamp, i1) = sv;
                match parse_quoted_line(s, i1, "from = \""@) {
                    None => None,
                    Some(fv) => {
                        let (from, i2) = fv;
                        match parse_quoted_line(s, i2, "event = \""@) {
                            None => None,
                            Some(ev) => {
                                let (event, i3) = ev;
                                match parse_quoted_line(s, i3, "action = \""@) {
                                    None => None,
                                    Some(av) => {
                                        let (action, i4) = av;
                                        match parse_quoted_line(s, i4, "target = \""@) {
                                            None => None,
                                            Some(tv) => {
                                                let (target, i5) = tv;
                                                match parse_quoted_line(s, i5, "data = \""@) {
                                                    None => None,
                                                    Some(dv) => {
                                                        let (data, i6) = dv;
                                                        if i6 == s.len() {
                                                            Some(
                                                                MessageView {
                                                                    stamp,
                                                                    from,
                                                                    event,
                                                                    action,
                                                                    target,
                                                                    data,
                                                                },
                                                            )
                                                        } else {
                                                            None
                                                        }
                                                    },
                                                }
                                            },
                                        }
                                    },
                                }
                            },
                        }
                    },
                }
            },
        }
    }
}

proof fn lemma_parse_stamp_line_region(s: Seq<char>, i: int, v: int)
    requires
        0 <= i,
        i64::MIN <= v <= i64::MAX,
        i + ser_stamp_line(v).len() <= s.len(),
        s.subrange(i, i + ser_stamp_line(v).len()) == ser_stamp_line(v),
    ensures
        match_lit(s, i, "stamp = "@),
        parse_stamp_line(s, i + "stamp = "@.len()) == Some((v, i + ser_stamp_line(v).len())),
{
    let k = "stamp = "@;
    let d = dec_int(v);
    assert(ser_stamp_line(v) =~= k + (d + seq!['\n']));
    lemma_subrange_shift(s, i, k, d + seq!['\n']);
    lemma_subrange_shift(s, i + k.len(), d, seq!['\n']);
    let j = i + k.len() + d.len();
    assert(s.subrange(j, j + 1)[0] == s[j]);
    lemma_parse_stamp_region(s, i + k.len(), v);
}

proof fn lemma_parse_quoted_line_region(s: Seq<char>, i: int, key: Seq<char>, p: Seq<char>)
    requires
        0 <= i,
        i + ser_quoted_line(key, p).len() <= s.len(),
        s.subrange(i, i + ser_quoted_line(key, p).len()) == ser_quoted_line(key, p),
    ensures
        parse_quoted_line(s, i, key) == Some((p, i + ser_quoted_line(key, p).len())),
{
    let e = esc(p);
    assert(ser_quoted_line(key, p) =~= key + (e + seq!['"', '\n']));
    lemma_subrange_shift(s, i, key, e + seq!['"', '\n']);
    lemma_subrange_shift(s, i + key.len(), e, seq!['"', '\n']);
    let j = i + key.len() + e.len();
    assert(s.subrange(j, j + 2)[0] == s[j]);
    assert(s.subrange(j, j + 2)[1] == s[j + 1]);
    lemma_parse_quoted_region(s, i, key, p);
}

/// The position where line `k` of the serialized form of `m` starts.
spec fn ser_off(m: MessageView, k: int) -> int {
    let o1 = ser_stamp_line(m.stamp).len() as int;
    let o2 = o1 + ser_quoted_line("from = \""@, m.from).len();
    let o3 = o2 + ser_quoted_line("event = \""@, m.event).len();
    let o4 = o3 + ser_quoted_line("action = \""@, m.action).len();
    let o5 = o4 + ser_quoted_line("target = \""@, m.target).len();
    let o6 = o5 + ser_quoted_line("data = \""@, m.data).len();
    if k <= 1 {
        o1
    } else if k == 2 {
        o2
    } else if k == 3 {
        o3
    } else if k == 4 {
        o4
    } else if k == 5 {
        o5
    } else {
        o6
    }
}

#[verifier::spinoff_prover]
#[verifier::rlimit(100)]
proof fn lemma_parse_ser_lines(m: MessageView)
    requires
        m.wf(),
    ensures
        match_lit(ser_msg(m), 0, "stamp = "@),
        parse_stamp_line(ser_msg(m), "stamp = "@.len() as int) == Some((m.stamp, ser_off(m, 1))),
        parse_quoted_line(ser_msg(m), ser_off(m, 1), "from = \""@) == Some(
            (m.from, ser_off(m, 2)),
        ),
        parse_quoted_line(ser_msg(m), ser_off(m, 2), "event = \""@) == Some(
            (m.event, ser_off(m, 3)),
        ),
        parse_quoted_line(ser_msg(m), ser_off(m, 3), "action = \""@) == Some(
            (m.action, ser_off(m, 4)),
        ),
        parse_quoted_line(ser_msg(m), ser_off(m, 4), "target = \""@) == Some(
            (m.target, ser_off(m, 5)),
        ),
        parse_quoted_line(ser_msg(m), ser_off(m, 5), "data = \""@) == Some(
            (m.data, ser_off(m, 6)),
        ),
        ser_off(m, 6) == ser_msg(m).len(),
{
    let s = ser_msg(m);
    let l1 = ser_stamp_line(m.stamp);
    let l2 = ser_quoted_line("from = \""@, m.from);
    let l3 = ser_quoted_line("event = \""@, m.event);
    let l4 = ser_quoted_line("action = \""@, m.action);
    let l5 = ser_quoted_line("target = \""@, m.target);
    let l6 = ser_quoted_line("data = \""@, m.data);
    let r6 = l6 + Seq::<char>::empty();
    let r5 = l5 + r6;
    let r4 = l4 + r5;
    let r3 = l3 + r4;
    let r2 = l2 + r3;
    assert(s =~= l1 + r2);
    assert(s.subrange(0, s.len() as int) =~= s);
    let i1 = l1.len() as int;
    let i2 = i1 + l2.len();
    let i3 = i2 + l3.len();
    let i4 = i3 + l4.len();
    let i5 = i4 + l5.len();
    let i6 = i5 + l6.len();
    lemma_subrange_shift(s, 0, l1, r2);
    lemma_parse_stamp_line_region(s, 0, m.stamp);
    lemma_subrange_shift(s, i1, l2, r3);
    lemma_parse_quoted_line_region(s, i1, "from = \""@, m.from);
    lemma_subrange_shift(s, i2, l3, r4);
    lemma_parse_quoted_line_region(s, i2, "event = \""@, m.event);
    lemma_subrange_shift(s, i3, l4, r5);
    lemma_parse_quoted_line_region(s, i3, "action = \""@, m.action);
    lemma_subrange_shift(s, i4, l5, r6);
    lemma_parse_quoted_line_region(s, i4, "target = \""@, m.target);
    lemma_subrange_shift(s, i5, l6, Seq::<char>::empty());
    lemma_parse_quoted_line_region(s, i5, "data = \""@, m.data);
    assert(i6 == s.len());
}

/// Round trip: parsing a serialized message yields the message back, field
/// for field, for every message an executable [`Message`] can hold —
/// zero-value and empty-string fields included.
#[verifier::rlimit(100)]
pub proof fn lemma_parse_ser(m: MessageView)
    requires
        m.wf(),
    ensures
        parse_msg(ser_msg(m)) == Some(m),
{
    lemma_parse_ser_lines(m);
    assert(parse_msg(ser_msg(m)) == Some(m));
}

// ---------------------------------------------------------------------------
// Executable string utilities
// ---------------------------------------------------------------------------

/// Relies on `String::push`: appends the given character to the end of the
/// string. vstd gives `push` no specification.
#[verifier::external_body]
fn push_char(s: &mut String, c: char)
    ensures
        final(s)@ == old(s)@.push(c),
{
    s.push(c);
}

/// Collects the characters of a string slice into a vector.
pub fn str_chars(s: &str) -> (v: Vec<char>)
    ensures
        v@ == s@,
{
    let mut it = s.chars();
    let mut v: Vec<char> = Vec::new();
    loop
        invariant
            it.obeys_prophetic_iter_laws(),
            v@ + it.remaining() == s@,
            v@.len() <= s@.len(),
        decreases s@.len() - v@.len(),
    {
        match it.next() {
            Some(c) => {
                v.push(c);
                proof {
                    assert(v@ + it.remaining() =~= s@);
                }
            },
            None => {
                proof {
                    assert(v@ + it.remaining() =~= v@);
                }
                return v;
            },
        }
    }
}

/// Builds a string from a vector of characters.
pub fn string_from_chars(cs: &Vec<char>) -> (out: String)
    ensures
        out@ == cs@,
{
    let mut out = String::new();
    let mut k: usize = 0;
    while k < cs.len()
        invariant
            k <= cs@.len(),
            out@ == cs@.take(k as int),
        decreases cs@.len() - k,
    {
        push_char(&mut out, cs[k]);
        proof {
            assert(cs@.take(k as int + 1) =~= cs@.take(k as int).push(cs@[k as int]));
        }
        k += 1;
    }
    proof {
        assert(cs@.take(cs@.len() as int) =~= cs@);
    }
    out
}

// ---------------------------------------------------------------------------
// Serialization
// ---------------------------------------------------------------------------

fn digit_char_of(d: u64) -> (c: char)
    requires
        d < 10,
    ensures
        c == digit_char(d as int),
{
    if d == 0 {
        '0'
    } else if d == 1 {
        '1'
    } else if d == 2 {
        '2'
    } else if d == 3 {
        '3'
    } else if d == 4 {
        '4'
    } else if d == 5 {
        '5'
    } else if d == 6 {
        '6'
    } else if d == 7 {
        '7'
    } else if d == 8 {
        '8'
    } else {
        '9'
    }
}

fn push_dec_u64(out: &mut String, n: u64)
    ensures
        final(out)@ == old(out)@ + dec_nat(n as nat),
    decreases n,
{
    if n < 10 {
        push_char(out, digit_char_of(n));
        proof {
            assert(old(out)@.push(digit_char(n as int)) =~= old(out)@ + dec_nat(n as nat));
        }
    } else {
        push_dec_u64(out, n / 10);
        push_char(out, digit_char_of(n % 10));
        proof {
            assert((n / 10) as nat == (n as nat) / 10);
            assert((n % 10) as nat == (n as nat) % 10);
            assert(dec_nat(n as nat) == dec_nat((n as nat) / 10).push(
                digit_char(((n as nat) % 10) as int),
            ));
            assert((old(out)@ + dec_nat((n as nat) / 10)).push(digit_char(((n as nat) % 10) as int))
                =~= old(out)@ + dec_nat(n as nat));
        }
    }
}

fn push_dec_i64(out: &mut String, n: i64)
    ensures
        final(out)@ == old(out)@ + dec_int(n as int),
{
    if n < 0 {
        push_char(out, '-');
        let mag: u64 = (-(n as i128)) as u64;
        push_dec_u64(out, mag);
        proof {
            assert(mag as nat == (-(n as int)) as nat);
            assert(old(out)@.push('-') + dec_nat(mag as nat) =~= old(out)@ + dec_int(n as int));
        }
    } else {
        push_dec_u64(out, n as u64);
    }
}

fn push_escaped(out: &mut String, s: &str)
    ensures
        final(out)@ == old(out)@ + esc(s@),
{
    let cs = str_chars(s);
    let mut k: usize = 0;
    proof {
        assert(esc(Seq::<char>::empty()) == Seq::<char>::empty());
        assert(cs@.take(0) =~= Seq::<char>::empty());
        assert(old(out)@ + esc(cs@.take(0)) =~= old(out)@);
    }
    while k < cs.len()
        invariant
            k <= cs@.len(),
            cs@ == s@,
            out@ == old(out)@ + esc(cs@.take(k as int)),
        decreases cs@.len() - k,
    {
        let ghost pre = out@;
        let c = cs[k];
        if c == '\\' {
            push_char(out, '\\');
            push_char(out, '\\');
        } else if c == '"' {
            push_char(out, '\\');
            push_char(out, '"');
        } else if c == '\n' {
            push_char(out, '\\');
            push_char(out, 'n');
        } else if c == '\r' {
            push_char(out, '\\');
            push_char(out, 'r');
        } else if c == '\t' {
            push_char(out, '\\');
            push_char(out, 't');
        } else {
            push_char(out, c);
        }
        proof {
            assert(out@ =~= pre + esc_char(c));
            lemma_esc_push(cs@.take(k as int), c);
            assert(cs@.take(k as int + 1) =~= cs@.take(k as int).push(c));
            assert(out@ =~= old(out)@ + esc(cs@.take(k as int + 1)));
        }
        k += 1;
    }
    proof {
        assert(cs@.take(cs@.len() as int) =~= cs@);
    }
}

/// Serializes a message into its canonical wire document.
pub fn serialize_message(m: &Message) -> (out: String)
    ensures
        out@ == ser_msg(m@),
{
    let mut out = String::new();
    out.append("stamp = ");
    push_dec_i64(&mut out, m.stamp);
    push_char(&mut out, '\n');
    out.append("from = \"");
    push_escaped(&mut out, m.from.as_str());
    out.append("\"\n");
    out.append("event = \"");
    push_escaped(&mut out, m.event.as_str());
    out.append("\"\n");
    out.append("action = \"");
    push_escaped(&mut out, m.action.as_str());
    out.append("\"\n");
    out.append("target = \"");
    push_escaped(&mut out, m.target.as_str());
    out.append("\"\n");
    out.append("data = \"");
    push_escaped(&mut out, m.data.as_str());
    out.append("\"\n");
    proof {
        reveal_strlit("\"\n");
        assert("\"\n"@ =~= seq!['"', '\n']);
        assert(out@ =~= ser_msg(m@));
    }
    out
}

// ---------------------------------------------------------------------------
// Parsing
// ---------------------------------------------------------------------------

fn char_digit_of(c: char) -> (r: Option<u8>)
    ensures
        match r {
            Some(d) => char_digit(c) == d as int && d < 10,
            None => char_digit(c) == -1,
        },
{
    if c == '0' {
        Some(0)
    } else if c == '1' {
        Some(1)
    } else if c == '2' {
        Some(2)
    } else if c == '3' {
        Some(3)
    } else if c == '4' {
        Some(4)
    } else if c == '5' {
        Some(5)
    } else if c == '6' {
        Some(6)
    } else if c == '7' {
        Some(7)
    } else if c == '8' {
        Some(8)
    } else if c == '9' {
        Some(9)
    } else {
        None
    }
}

fn expect_lit(v: &Vec<char>, i: usize, lit: &str) -> (r: Option<usize>)
    ensures
        match r {
            Some(j) => match_lit(v@, i as int, lit@) && j as int == i as int + lit@.len()
                && j as int <= v@.len(),
            None => !match_lit(v@, i as int, lit@),
        },
{
    let lc = str_chars(lit);
    if i > v.len() || v.len() - i < lc.len() {
        return None;
    }
    assert(v@.len() <= usize::MAX);
    let mut k: usize = 0;
    while k < lc.len()
        invariant
            k <= lc@.len(),
            lc@ == lit@,
            i as int + lc@.len() <= v@.len(),
            v@.len() <= usize::MAX,
            forall|t: int| 0 <= t < k as int ==> v@[i as int + t] == lc@[t],
        decreases lc@.len() - k,
    {
        if v[i + k] != lc[k] {
            proof {
                assert(v@.subrange(i as int, i as int + lit@.len())[k as int] == v@[i as int
                    + k as int]);
            }
            return None;
        }
        k += 1;
    }
    proof {
        assert(v@.subrange(i as int, i as int + lit@.len()) =~= lit@);
    }
    Some(i + lc.len())
}

fn scan_digits_exec(v: &Vec<char>, start: usize) -> (r: (u64, usize, bool))
    requires
        start as int <= v@.len(),
    ensures
        start as int <= r.1 as int <= v@.len(),
        scan_digits(v@, start as int, 0).1 == r.1 as int,
        scan_digits(v@, start as int, 0).0 >= 0,
        !r.2 ==> scan_digits(v@, start as int, 0).0 == r.0 as int,
        r.2 ==> scan_digits(v@, start as int, 0).0 > u64::MAX as int,
{
    let mut j: usize = start;
    let mut acc: u64 = 0;
    let mut over: bool = false;
    let ghost mut pv: int = 0int;
    loop
        invariant_except_break
            start <= j <= v@.len(),
            pv >= 0,
            scan_digits(v@, start as int, 0) == scan_digits(v@, j as int, pv),
            !over ==> pv == acc as int,
            over ==> pv > u64::MAX as int,
        ensures
            start <= j <= v@.len(),
            pv >= 0,
            scan_digits(v@, start as int, 0) == (pv, j as int),
            !over ==> pv == acc as int,
            over ==> pv > u64::MAX as int,
        decreases v@.len() - j,
    {
        if j == v.len() {
            break;
        }
        let c = v[j];
        let dopt = char_digit_of(c);
        if dopt.is_none() {
            break;
        }
        let d = dopt.unwrap();
        proof {
            assert(scan_digits(v@, j as int, pv) == scan_digits(
                v@,
                j as int + 1,
                pv * 10 + char_digit(v@[j as int]),
            ));
        }
        if !over {
            let du = d as u64;
            if acc > (u64::MAX - du) / 10 {
                over = true;
                proof {
                    assert(acc as int * 10 + d as int > u64::MAX as int);
                }
            } else {
                proof {
                    assert(acc as int * 10 + d as int <= u64::MAX as int);
                }
                acc = acc * 10 + du;
            }
        }
        proof {
            pv = pv * 10 + d as int;
        }
        j += 1;
    }
    (acc, j, over)
}

fn parse_stamp_exec(v: &Vec<char>, i: usize) -> (r: Option<(i64, usize)>)
    requires
        i as int <= v@.len(),
    ensures
        match r {
            Some(x) => parse_stamp_line(v@, i as int) == Some((x.0 as int, x.1 as int))
                && i as int <= x.1 as int <= v@.len(),
            None => parse_stamp_line(v@, i as int) is None,
        },
{
    let neg = i < v.len() && v[i] == '-';
    let start = if neg {
        i + 1
    } else {
        i
    };
    let (acc, j, over) = scan_digits_exec(v, start);
    if j == start {
        return None;
    }
    if j == v.len() {
        return None;
    }
    if v[j] != '\n' {
        return None;
    }
    if over {
        return None;
    }
    if neg {
        if acc > 9223372036854775808u64 {
            return None;
        }
        let val: i64 = (-(acc as i128)) as i64;
        Some((val, j + 1))
    } else {
        if acc > 9223372036854775807u64 {
            return None;
        }
        Some((acc as i64, j + 1))
    }
}

fn scan_quoted_exec(v: &Vec<char>, i: usize) -> (r: Option<(Vec<char>, usize)>)
    requires
        i as int <= v@.len(),
    ensures
        match r {
            Some(x) => scan_quoted(v@, i as int, Seq::<char>::empty()) == Some(
                (x.0@, x.1 as int),
            ) && i as int <= x.1 as int <= v@.len(),
            None => scan_quoted(v@, i as int, Seq::<char>::empty()) is None,
        },
{
    let mut acc: Vec<char> = Vec::new();
    let mut j: usize = i;
    proof {
        assert(acc@ =~= Seq::<char>::empty());
    }
    loop
        invariant
            i <= j <= v@.len(),
            scan_quoted(v@, i as int, Seq::<char>::empty()) == scan_quoted(v@, j as int, acc@),
        decreases v@.len() - j,
    {
        if j == v.len() {
            return None;
        }
        let c = v[j];
        if c == '"' {
            return Some((acc, j + 1));
        }
        if c == '\\' {
            if j + 1 == v.len() {
                return None;
            }
            let e = v[j + 1];
            if e == '\\' || e == '"' || e == 'n' || e == 'r' || e == 't' {
                let u = if e == 'n' {
                    '\n'
                } else if e == 'r' {
                    '\r'
                } else if e == 't' {
                    '\t'
                } else {
                    e
                };
                proof {
                    assert(u == unescape_code(v@[j as int + 1]));
                    assert(scan_quoted(v@, j as int, acc@) == scan_quoted(
                        v@,
                        j as int + 2,
                        acc@.push(unescape_code(v@[j as int + 1])),
                    ));
                }
                acc.push(u);
                j += 2;
            } else {
                return None;
            }
        } else {
            proof {
                assert(scan_quoted(v@, j as int, acc@) == scan_quoted(
                    v@,
                    j as int + 1,
                    acc@.push(v@[j as int]),
                ));
            }
            acc.push(c);
            j += 1;
        }
    }
}

fn parse_quoted_line_exec(v: &Vec<char>, i: usize, key: &str) -> (r: Option<(Vec<char>, usize)>)
    ensures
        match r {
            Some(x) => parse_quoted_line(v@, i as int, key@) == Some((x.0@, x.1 as int))
                && i as int <= x.1 as int <= v@.len(),
            None => parse_quoted_line(v@, i as int, key@) is None,
        },
{
    let jk = match expect_lit(v, i, key) {
        Some(j) => j,
        None => {
            return None;
        },
    };
    let (p, jq) = match scan_quoted_exec(v, jk) {
        Some(x) => x,
        None => {
            return None;
        },
    };
    if jq == v.len() {
        return None;
    }
    if v[jq] != '\n' {
        return None;
    }
    Some((p, jq + 1))
}

/// Parses a canonical wire document back into a message. Returns `Some`
/// exactly when the input is the serialization of some message, and then
/// returns that message.
pub fn parse_message(s: &str) -> (r: Option<Message>)
    ensures
        match r {
            Some(m) => parse_msg(s@) == Some(m@),
            None => parse_msg(s@) is None,
        },
{
    let v = str_chars(s);
    let i0 = match expect_lit(&v, 0, "stamp = ") {
        Some(j) => j,
        None => {
            return None;
        },
    };
    let (stamp, i1) = match parse_stamp_exec(&v, i0) {
        Some(x) => x,
        None => {
            return None;
        },
    };
    let (from_c, i2) = match parse_quoted_line_exec(&v, i1, "from = \"") {
        Some(x) => x,
        None => {
            return None;
        },
    };
    let (event_c, i3) = match parse_quoted_line_exec(&v, i2, "event = \"") {
        Some(x) => x,
        None => {
            return None;
        },
    };
    let (action_c, i4) = match parse_quoted_line_exec(&v, i3, "action = \"") {
        Some(x) => x,
        None => {
            return None;
        },
    };
    let (target_c, i5) = match parse_quoted_line_exec(&v, i4, "target = \"") {
        Some(x) => x,
        None => {
            return None;
        },
    };
    let (data_c, i6) = match parse_quoted_line_exec(&v, i5, "data = \"") {
        Some(x) => x,
        None => {
            return None;
        },
    };
    if i6 != v.len() {
        return None;
    }
    Some(
        Message {
            stamp,
            from: string_from_chars(&from_c),
            event: string_from_chars(&event_c),
            action: string_from_chars(&action_c),
            target: string_from_chars(&target_c),
            data: string_from_chars(&data_c),
        },
    )
}

} // verus!
