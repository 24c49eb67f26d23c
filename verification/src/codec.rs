use vstd::prelude::*;
use vstd::string::StrSliceExecFns;
use vstd::string::StringExecFns;
use crate::record::{RecordModel, TransactionData};
use crate::strutil::push_char;

verus! {

// The backing file holds one record per line.  A line is a JSON object with
// the record's five fields in a fixed order; string fields escape backslash
// and double quote with a backslash and hold every other character verbatim,
// and the two numeric fields are plain decimal.  `encode_line` is the exact
// layout; `parse_line` is its inverse and rejects everything else, so a
// corrupt line is skipped on reload rather than misread.
/// The characters that stand for `c` inside a quoted field.
pub open spec fn esc_char(c: char) -> Seq<char> {
    if c == '\\' || c == '"' {
        seq!['\\', c]
    } else {
        seq![c]
    }
}

/// The characters that stand for the field `s` inside its quotes.
pub open spec fn escaped(s: Seq<char>) -> Seq<char>
    decreases s.len(),
{
    if s.len() == 0 {
        Seq::empty()
    } else {
        esc_char(s[0]) + escaped(s.drop_first())
    }
}

/// The decimal digit character for `d` (which must be below ten).
pub open spec fn digit_char(d: int) -> char {
    if d == 0 {
        '0'
    } else if d == 1 {
        '1'
    } else if d == 2 {
        '2'
    } else if d == 3 {
        '3'
    } else if d == 4 {
        '4'
    } else if d == 5 {
        '5'
    } else if d == 6 {
        '6'
    } else if d == 7 {
        '7'
    } else if d == 8 {
        '8'
    } else {
        '9'
    }
}

/// The decimal digits of `n`, most significant first.
pub open spec fn dec_digits(n: nat) -> Seq<char>
    decreases n,
{
    if n < 10 {
        seq![digit_char(n as int)]
    } else {
        dec_digits(n / 10).push(digit_char((n % 10) as int))
    }
}

/// The line's opening, up to the signature field.
pub open spec fn lit_sig() -> Seq<char> {
    "{\"signature\":\""@
}

/// The text between the signature and sender fields.
pub open spec fn lit_sender() -> Seq<char> {
    "\",\"sender\":\""@
}

/// The text between the sender and receiver fields.
pub open spec fn lit_receiver() -> Seq<char> {
    "\",\"receiver\":\""@
}

/// The text between the receiver and amount fields.
pub open spec fn lit_amount() -> Seq<char> {
    "\",\"amount\":"@
}

/// The text between the amount and timestamp fields.
pub open spec fn lit_timestamp() -> Seq<char> {
    ",\"timestamp\":"@
}

/// The line's closing brace.
pub open spec fn lit_close() -> Seq<char> {
    "}"@
}

/// The one line that stands for the record `r` in the backing file.
pub open spec fn encode_line(r: RecordModel) -> Seq<char> {
    lit_sig() + escaped(r.signature) + lit_sender() + escaped(r.sender) + lit_receiver()
        + escaped(r.receiver) + lit_amount() + dec_digits(r.amount as nat) + lit_timestamp()
        + dec_digits(r.timestamp as nat) + lit_close()
}

/// Appends `escaped(field@)` to `out`.
fn append_escaped(out: &mut String, field: &str)
    ensures
        final(out)@ == old(out)@ + escaped(field@),
{
    let len = field.unicode_len();
    let mut i: usize = 0;
    proof {
        assert(out@ =~= old(out)@ + escaped(field@.take(0)));
    }
    while i < len
        invariant
            len == field@.len(),
            i <= len,
            out@ == old(out)@ + escaped(field@.take(i as int)),
        decreases len - i,
    {
        let c = field.get_char(i);
        if c == '\\' || c == '"' {
            push_char(out, '\\');
            push_char(out, c);
        } else {
            push_char(out, c);
        }
        proof {
            lemma_escaped_snoc(field@.take(i as int), field@[i as int]);
            assert(field@.take(i + 1) =~= field@.take(i as int).push(field@[i as int]));
            assert(out@ =~= old(out)@ + escaped(field@.take(i + 1)));
        }
        i = i + 1;
    }
    proof {
        assert(field@.take(len as int) =~= field@);
    }
}

/// Escaping a sequence extended by one character appends that character's
/// escape.
proof fn lemma_escaped_snoc(s: Seq<char>, c: char)
    ensures
        escaped(s.push(c)) == escaped(s) + esc_char(c),
    decreases s.len(),
{
    let sp = s.push(c);
    if s.len() == 0 {
        assert(sp[0] == c);
        assert(sp.drop_first() =~= Seq::<char>::empty());
        assert(escaped(sp) == esc_char(sp[0]) + escaped(sp.drop_first()));
        assert(escaped(sp) =~= escaped(s) + esc_char(c));
    } else {
        assert(sp[0] == s[0]);
        assert(sp.drop_first() =~= s.drop_first().push(c));
        lemma_escaped_snoc(s.drop_first(), c);
        assert(escaped(sp) == esc_char(sp[0]) + escaped(sp.drop_first()));
        assert(escaped(sp) =~= escaped(s) + esc_char(c));
    }
}

/// The digit character for `d`, executably.
fn digit_char_of(d: u64) -> (c: char)
    requires
        d < 10,
    ensures
        c == digit_char(d as int),
{
    if d == 0 {
        '0'
    } else if d == 1 {
        '1'
    } else if d == 2 {
        '2'
    } else if d == 3 {
        '3'
    } else if d == 4 {
        '4'
    } else if d == 5 {
        '5'
    } else if d == 6 {
        '6'
    } else if d == 7 {
        '7'
    } else if d == 8 {
        '8'
    } else {
        '9'
    }
}

/// Appends the decimal digits of `n` to `out`.
fn append_decimal(out: &mut String, n: u64)
    ensures
        final(out)@ == old(out)@ + dec_digits(n as nat),
    decreases n,
{
    if n < 10 {
        push_char(out, digit_char_of(n));
        proof {
            assert(out@ =~= old(out)@ + dec_digits(n as nat));
        }
    } else {
        append_decimal(out, n / 10);
        push_char(out, digit_char_of(n % 10));
        proof {
            assert(out@ =~= old(out)@ + dec_digits(n as nat));
        }
    }
}

/// The line that stands for `t` in the backing file.
pub fn encode_record(t: &TransactionData) -> (s: String)
    ensures
        s@ == encode_line(t@),
{
    let mut out = String::new();
    out.append("{\"signature\":\"");
    append_escaped(&mut out, t.signature.as_str());
    out.append("\",\"sender\":\"");
    append_escaped(&mut out, t.sender.as_str());
    out.append("\",\"receiver\":\"");
    append_escaped(&mut out, t.receiver.as_str());
    out.append("\",\"amount\":");
    append_decimal(&mut out, t.amount);
    out.append(",\"timestamp\":");
    append_decimal(&mut out, t.timestamp);
    out.append("}");
    proof {
        assert(out@ =~= encode_line(t@));
    }
    out
}

/// Whether `c` is a decimal digit.
pub open spec fn is_digit(c: char) -> bool {
    48 <= c as u32 <= 57
}

/// The numeric value of the digit `c`.
pub open spec fn digit_val(c: char) -> int {
    c as u32 - 48
}

/// The first position at or after `i` that does not hold a digit.
pub open spec fn digits_end(s: Seq<char>, i: int) -> int
    decreases s.len() - i,
{
    if i < 0 || i >= s.len() || !is_digit(s[i]) {
        i
    } else {
        digits_end(s, i + 1)
    }
}

/// The value of the digit run `s[i..j]`, read in base ten.
pub open spec fn digits_val(s: Seq<char>, i: int, j: int) -> int
    decreases j - i,
{
    if j <= i {
        0
    } else {
        digits_val(s, i, j - 1) * 10 + digit_val(s[j - 1])
    }
}

/// The maximal digit run at `i`, as a value and its end position; nothing if
/// no digit stands at `i` or the value does not fit a `u64`.
pub open spec fn parse_number(s: Seq<char>, i: int) -> Option<(u64, int)> {
    if 0 <= i < s.len() && is_digit(s[i]) {
        let j = digits_end(s, i);
        let v = digits_val(s, i, j);
        if v <= u64::MAX {
            Some(((v as u64), j))
        } else {
            None
        }
    } else {
        None
    }
}

/// The content of a quoted field read from `i` up to, and not through, its
/// closing quote, with the closing quote's position.
pub open spec fn parse_string_body(s: Seq<char>, i: int) -> Option<(Seq<char>, int)>
    decreases s.len() - i,
{
    if i < 0 || i >= s.len() {
        None
    } else if s[i] == '"' {
        Some((Seq::empty(), i))
    } else if s[i] == '\\' {
        if i + 1 < s.len() && (s[i + 1] == '\\' || s[i + 1] == '"') {
            match parse_string_body(s, i + 2) {
                Some(p) => Some((seq![s[i + 1]] + p.0, p.1)),
                None => None,
            }
        } else {
            None
        }
    } else {
        match parse_string_body(s, i + 1) {
            Some(p) => Some((seq![s[i]] + p.0, p.1)),
            None => None,
        }
    }
}

/// The position after `pat` if `pat` stands at `i` in `s`.
pub open spec fn expect(s: Seq<char>, i: int, pat: Seq<char>) -> Option<int> {
    if 0 <= i && i + pat.len() <= s.len() && s.subrange(i, i + pat.len()) == pat {
        Some(i + pat.len())
    } else {
        None
    }
}

/// The record a line stands for, if the line has exactly the layout of
/// `encode_line`.
pub open spec fn parse_line(s: Seq<char>) -> Option<RecordModel> {
    match expect(s, 0, lit_sig()) {
        None => None,
        Some(i1) => match parse_string_body(s, i1) {
            None => None,
            Some(sig) => match expect(s, sig.1, lit_sender()) {
                None => None,
                Some(i2) => match parse_string_body(s, i2) {
                    None => None,
                    Some(sen) => match expect(s, sen.1, lit_receiver()) {
                        None => None,
                        Some(rcv) => match parse_string_body(s, rcv) {
                            None => None,
                            Some(rec) => match expect(s, rec.1, lit_amount()) {
                                None => None,
                                Some(i4) => match parse_number(s, i4) {
                                    None => None,
                                    Some(am) => match expect(s, am.1, lit_timestamp()) {
                                        None => None,
                                        Some(i5) => match parse_number(s, i5) {
                                            None => None,
                                            Some(ts) => match expect(s, ts.1, lit_close()) {
                                                None => None,
                                                Some(i6) => if i6 == s.len() {
                                                    Some(
                                                        RecordModel {
                                                            signature: sig.0,
                                                            sender: sen.0,
                                                            receiver: rec.0,
                                                            amount: am.0,
                                                            timestamp: ts.0,
                                                        },
                                                    )
                                                } else {
                                                    None
                                                },
                                            },
                                        },
                                    },
                                },
                            },
                        },
                    },
                },
            },
        },
    }
}

/// Whether `pat` stands at `i` in `s`, executably.
fn match_literal(s: &str, i: usize, pat: &str) -> (r: Option<usize>)
    ensures
        match r {
            Some(j) => expect(s@, i as int, pat@) == Some(j as int),
            None => expect(s@, i as int, pat@) is None,
        },
{
    let slen = s.unicode_len();
    let plen = pat.unicode_len();
    if i > slen || slen - i < plen {
        return None;
    }
    let mut j: usize = 0;
    while j < plen
        invariant
            slen == s@.len(),
            plen == pat@.len(),
            i + plen <= slen,
            j <= plen,
            forall|k: int| 0 <= k < j ==> s@[i + k] == pat@[k],
        decreases plen - j,
    {
        if s.get_char(i + j) != pat.get_char(j) {
            proof {
                assert(s@.subrange(i as int, i + plen)[j as int] != pat@[j as int]);
            }
            return None;
        }
        j = j + 1;
    }
    proof {
        assert(s@.subrange(i as int, i + plen) =~= pat@);
    }
    Some(i + plen)
}

/// `o` with `pre` prepended to its content.
spec fn with_prefix(pre: Seq<char>, o: Option<(Seq<char>, int)>) -> Option<(Seq<char>, int)> {
    match o {
        Some(p) => Some((pre + p.0, p.1)),
        None => None,
    }
}

/// Reads a quoted field from `i` up to its closing quote, executably.
fn parse_string_exec(s: &str, i: usize) -> (r: Option<(String, usize)>)
    ensures
        match r {
            Some(p) => parse_string_body(s@, i as int) == Some((p.0@, p.1 as int)),
            None => parse_string_body(s@, i as int) is None,
        },
{
    let len = s.unicode_len();
    let mut out = String::new();
    let mut cur = i;
    loop
        invariant
            len == s@.len(),
            i <= cur,
            parse_string_body(s@, i as int) == with_prefix(
                out@,
                parse_string_body(s@, cur as int),
            ),
        decreases len - cur,
    {
        if cur >= len {
            return None;
        }
        let c = s.get_char(cur);
        if c == '"' {
            proof {
                assert(out@ + Seq::<char>::empty() =~= out@);
            }
            return Some((out, cur));
        }
        if c == '\\' {
            if cur + 1 < len {
                let c2 = s.get_char(cur + 1);
                if c2 == '\\' || c2 == '"' {
                    let ghost prev = out@;
                    push_char(&mut out, c2);
                    proof {
                        if parse_string_body(s@, cur + 2) is Some {
                            let p = parse_string_body(s@, cur + 2)->Some_0;
                            assert(prev + (seq![s@[cur + 1]] + p.0) =~= out@ + p.0);
                        }
                    }
                    cur = cur + 2;
                } else {
                    return None;
                }
            } else {
                return None;
            }
        } else {
            let ghost prev = out@;
            push_char(&mut out, c);
            proof {
                if parse_string_body(s@, cur + 1) is Some {
                    let p = parse_string_body(s@, cur + 1)->Some_0;
                    assert(prev + (seq![s@[cur as int]] + p.0) =~= out@ + p.0);
                }
            }
            cur = cur + 1;
        }
    }
}

/// Position and digit facts of `digits_end`.
proof fn lemma_digits_end_props(s: Seq<char>, i: int)
    requires
        0 <= i <= s.len(),
    ensures
        i <= digits_end(s, i) <= s.len(),
        forall|k: int| i <= k < digits_end(s, i) ==> is_digit(s[k]),
        digits_end(s, i) == s.len() || !is_digit(s[digits_end(s, i)]),
    decreases s.len() - i,
{
    if i < s.len() && is_digit(s[i]) {
        lemma_digits_end_props(s, i + 1);
    }
}

/// A digit run's value is not negative.
proof fn lemma_digits_val_nonneg(s: Seq<char>, i: int, j: int)
    requires
        forall|k: int| i <= k < j ==> is_digit(s[k]),
    ensures
        0 <= digits_val(s, i, j),
    decreases j - i,
{
    if i < j {
        lemma_digits_val_nonneg(s, i, j - 1);
        assert(is_digit(s[j - 1]));
    }
}

/// A digit run's value does not shrink as the run extends.
proof fn lemma_digits_val_mono(s: Seq<char>, i: int, j1: int, j2: int)
    requires
        i <= j1 <= j2,
        forall|k: int| i <= k < j2 ==> is_digit(s[k]),
    ensures
        0 <= digits_val(s, i, j1) <= digits_val(s, i, j2),
    decreases j2 - j1,
{
    lemma_digits_val_nonneg(s, i, j1);
    if j1 < j2 {
        lemma_digits_val_mono(s, i, j1, j2 - 1);
        assert(is_digit(s[j2 - 1]));
        assert(digits_val(s, i, j2) == digits_val(s, i, j2 - 1) * 10 + digit_val(s[j2 - 1]));
    }
}

/// Reads the digit run at `i` as a `u64`, executably.
fn parse_number_exec(s: &str, i: usize) -> (r: Option<(u64, usize)>)
    ensures
        match r {
            Some(p) => parse_number(s@, i as int) == Some((p.0, p.1 as int)),
            None => parse_number(s@, i as int) is None,
        },
{
    let len = s.unicode_len();
    if i >= len {
        return None;
    }
    let c0 = s.get_char(i) as u32;
    if c0 < 48 || c0 > 57 {
        return None;
    }
    let mut cur = i;
    let mut acc: u64 = 0;
    loop
        invariant
            len == s@.len(),
            i <= cur <= len,
            i < len && is_digit(s@[i as int]),
            forall|k: int| i <= k < cur ==> is_digit(s@[k]),
            acc == digits_val(s@, i as int, cur as int),
        decreases len - cur,
    {
        if cur >= len {
            proof {
                lemma_digits_end_eq(s@, i as int, cur as int);
            }
            return Some((acc, cur));
        }
        let c = s.get_char(cur) as u32;
        if c < 48 || c > 57 {
            proof {
                lemma_digits_end_eq(s@, i as int, cur as int);
            }
            return Some((acc, cur));
        }
        let d = (c - 48) as u64;
        if acc > (u64::MAX - d) / 10 {
            proof {
                lemma_digits_end_props(s@, i as int);
                let e = digits_end(s@, i as int);
                lemma_digits_end_ge(s@, i as int, (cur + 1) as int);
                assert(digits_val(s@, i as int, cur + 1) == acc * 10 + d);
                assert(acc * 10 + d > u64::MAX) by {
                    vstd::arithmetic::div_mod::lemma_fundamental_div_mod(
                        u64::MAX - d,
                        10,
                    );
                }
                lemma_digits_val_mono(s@, i as int, cur + 1, e);
            }
            return None;
        }
        acc = acc * 10 + d;
        cur = cur + 1;
    }
}

/// `digits_end(s, i)` is `j` when digits fill `[i..j)` and stop there.
proof fn lemma_digits_end_eq(s: Seq<char>, i: int, j: int)
    requires
        0 <= i <= j <= s.len(),
        forall|k: int| i <= k < j ==> is_digit(s[k]),
        j == s.len() || !is_digit(s[j]),
    ensures
        digits_end(s, i) == j,
    decreases j - i,
{
    if i < j {
        lemma_digits_end_eq(s, i + 1, j);
    }
}

/// `digits_end(s, i)` reaches at least `j` when digits fill `[i..j)`.
proof fn lemma_digits_end_ge(s: Seq<char>, i: int, j: int)
    requires
        0 <= i <= j <= s.len(),
        forall|k: int| i <= k < j ==> is_digit(s[k]),
    ensures
        digits_end(s, i) >= j,
    decreases j - i,
{
    if i < j {
        lemma_digits_end_ge(s, i + 1, j);
    } else {
        lemma_digits_end_props(s, i);
    }
}

/// Every character of a decimal rendering is a digit, and there is at least
/// one.
proof fn lemma_dec_digits_are_digits(n: nat)
    ensures
        dec_digits(n).len() >= 1,
        forall|k: int| 0 <= k < dec_digits(n).len() ==> is_digit(#[trigger] dec_digits(n)[k]),
    decreases n,
{
    if n < 10 {
        assert(is_digit(digit_char(n as int)));
    } else {
        lemma_dec_digits_are_digits(n / 10);
        assert(is_digit(digit_char((n % 10) as int)));
    }
}

/// Reading back a decimal rendering gives the number itself.
proof fn lemma_digits_val_of_dec(s: Seq<char>, i: int, n: nat)
    requires
        0 <= i,
        i + dec_digits(n).len() <= s.len(),
        s.subrange(i, i + dec_digits(n).len()) == dec_digits(n),
    ensures
        digits_val(s, i, i + dec_digits(n).len()) == n,
    decreases n,
{
    let d = dec_digits(n);
    let j = i + d.len();
    assert(forall|k: int| 0 <= k < d.len() ==> s[i + k] == #[trigger] d[k]) by {
        assert(forall|k: int| 0 <= k < d.len() ==> #[trigger] s.subrange(i, i + d.len())[k]
            == d[k]);
    }
    if n < 10 {
        assert(d == seq![digit_char(n as int)]);
        assert(d[0] == digit_char(n as int));
        assert(s[i + 0] == d[0]);
        assert(s[j - 1] == digit_char(n as int));
        assert(digits_val(s, i, j) == digits_val(s, i, i) * 10 + digit_val(s[j - 1]));
    } else {
        let dp = dec_digits(n / 10);
        assert(d == dp.push(digit_char((n % 10) as int)));
        assert(s.subrange(i, i + dp.len() as int) =~= dp) by {
            assert(forall|k: int| 0 <= k < dp.len() ==> #[trigger] s.subrange(
                i,
                i + dp.len() as int,
            )[k] == s[i + k]);
            assert(forall|k: int| 0 <= k < dp.len() ==> #[trigger] d[k] == dp[k]);
        }
        lemma_digits_val_of_dec(s, i, n / 10);
        assert(s[j - 1] == d[d.len() - 1]);
        assert(d[d.len() - 1] == digit_char((n % 10) as int));
        assert(digits_val(s, i, j) == digits_val(s, i, j - 1) * 10 + digit_val(s[j - 1]));
        assert((n / 10) * 10 + n % 10 == n) by {
            vstd::arithmetic::div_mod::lemma_fundamental_div_mod(n as int, 10);
        }
    }
}

/// A decimal rendering followed by a non-digit reads back as the number.
proof fn lemma_parse_number_at(pre: Seq<char>, n: u64, post: Seq<char>)
    requires
        post.len() >= 1,
        !is_digit(post[0]),
    ensures
        parse_number(pre + dec_digits(n as nat) + post, pre.len() as int) == Some(
            (n, (pre.len() + dec_digits(n as nat).len()) as int),
        ),
{
    let d = dec_digits(n as nat);
    let s = pre + d + post;
    let i = pre.len() as int;
    let j = i + d.len();
    lemma_dec_digits_are_digits(n as nat);
    assert(forall|k: int| i <= k < j ==> s[k] == d[k - i]);
    assert(forall|k: int| i <= k < j ==> is_digit(s[k]));
    assert(s[j] == post[0]);
    lemma_digits_end_eq(s, i, j);
    assert(s.subrange(i, j) =~= d);
    lemma_digits_val_of_dec(s, i, n as nat);
    assert(is_digit(s[i]));
}

/// An escaped field followed by a quote reads back as the field.
proof fn lemma_parse_string_at(pre: Seq<char>, f: Seq<char>, post: Seq<char>)
    requires
        post.len() >= 1,
        post[0] == '"',
    ensures
        parse_string_body(pre + escaped(f) + post, pre.len() as int) == Some(
            (f, (pre.len() + escaped(f).len()) as int),
        ),
    decreases f.len(),
{
    let s = pre + escaped(f) + post;
    let i = pre.len() as int;
    if f.len() == 0 {
        assert(escaped(f) =~= Seq::<char>::empty());
        assert(s[i] == post[0]);
        assert(parse_string_body(s, i) == Some((Seq::<char>::empty(), i)));
        assert(f =~= Seq::<char>::empty());
    } else {
        let c = f[0];
        let fr = f.drop_first();
        assert(escaped(f) == esc_char(c) + escaped(fr));
        lemma_parse_string_at(pre + esc_char(c), fr, post);
        assert((pre + esc_char(c)) + escaped(fr) + post =~= s);
        let tail = parse_string_body(s, i + esc_char(c).len());
        assert(tail == Some((fr, (pre.len() + esc_char(c).len() + escaped(fr).len()) as int)));
        if c == '\\' || c == '"' {
            assert(s[i] == '\\');
            assert(s[i + 1] == c);
            assert(i + 1 < s.len());
            assert(parse_string_body(s, i) == Some((seq![s[i + 1]] + fr, i + escaped(f).len())));
            assert(seq![c] + fr =~= f);
        } else {
            assert(s[i] == c);
            assert(parse_string_body(s, i) == Some((seq![s[i]] + fr, i + escaped(f).len())));
            assert(seq![c] + fr =~= f);
        }
    }
}

/// A literal at its own position is found there.
proof fn lemma_expect_at(pre: Seq<char>, pat: Seq<char>, post: Seq<char>)
    ensures
        expect(pre + pat + post, pre.len() as int, pat) == Some(
            (pre.len() + pat.len()) as int,
        ),
{
    let s = pre + pat + post;
    assert(s.subrange(pre.len() as int, (pre.len() + pat.len()) as int) =~= pat);
}

/// End position of the signature field in `encode_line(r)`.
pub open spec fn pos_sig_end(r: RecordModel) -> int {
    lit_sig().len() + escaped(r.signature).len() as int
}

/// End position of the sender field in `encode_line(r)`.
pub open spec fn pos_sender_end(r: RecordModel) -> int {
    pos_sig_end(r) + lit_sender().len() + escaped(r.sender).len() as int
}

/// End position of the receiver field in `encode_line(r)`.
pub open spec fn pos_receiver_end(r: RecordModel) -> int {
    pos_sender_end(r) + lit_receiver().len() + escaped(r.receiver).len() as int
}

/// End position of the amount field in `encode_line(r)`.
pub open spec fn pos_amount_end(r: RecordModel) -> int {
    pos_receiver_end(r) + lit_amount().len() + dec_digits(r.amount as nat).len() as int
}

/// End position of the timestamp field in `encode_line(r)`.
pub open spec fn pos_timestamp_end(r: RecordModel) -> int {
    pos_amount_end(r) + lit_timestamp().len() + dec_digits(r.timestamp as nat).len() as int
}

/// The encoded line parses back through its signature and sender fields.
#[verifier::rlimit(50)]
proof fn lemma_round_trip_head(r: RecordModel)
    ensures
        expect(encode_line(r), 0, lit_sig()) == Some(lit_sig().len() as int),
        parse_string_body(encode_line(r), lit_sig().len() as int) == Some(
            (r.signature, pos_sig_end(r)),
        ),
        expect(encode_line(r), pos_sig_end(r), lit_sender()) == Some(
            pos_sig_end(r) + lit_sender().len(),
        ),
        parse_string_body(encode_line(r), pos_sig_end(r) + lit_sender().len()) == Some(
            (r.sender, pos_sender_end(r)),
        ),
{
    let s = encode_line(r);
    let a = escaped(r.signature);
    let b = escaped(r.sender);
    let rest1 = a + lit_sender() + b + lit_receiver() + escaped(r.receiver) + lit_amount()
        + dec_digits(r.amount as nat) + lit_timestamp() + dec_digits(r.timestamp as nat)
        + lit_close();
    assert(s =~= Seq::<char>::empty() + lit_sig() + rest1);
    lemma_expect_at(Seq::<char>::empty(), lit_sig(), rest1);

    let rest2 = lit_sender() + b + lit_receiver() + escaped(r.receiver) + lit_amount()
        + dec_digits(r.amount as nat) + lit_timestamp() + dec_digits(r.timestamp as nat)
        + lit_close();
    assert(s =~= lit_sig() + a + rest2);
    reveal_strlit("\",\"sender\":\"");
    assert(rest2[0] == '"');
    lemma_parse_string_at(lit_sig(), r.signature, rest2);

    let rest3 = b + lit_receiver() + escaped(r.receiver) + lit_amount() + dec_digits(
        r.amount as nat,
    ) + lit_timestamp() + dec_digits(r.timestamp as nat) + lit_close();
    assert(s =~= (lit_sig() + a) + lit_sender() + rest3);
    lemma_expect_at(lit_sig() + a, lit_sender(), rest3);

    let rest4 = lit_receiver() + escaped(r.receiver) + lit_amount() + dec_digits(r.amount as nat)
        + lit_timestamp() + dec_digits(r.timestamp as nat) + lit_close();
    assert(s =~= (lit_sig() + a + lit_sender()) + b + rest4);
    reveal_strlit("\",\"receiver\":\"");
    assert(rest4[0] == '"');
    lemma_parse_string_at(lit_sig() + a + lit_sender(), r.sender, rest4);
}

/// The encoded line parses back through its receiver field.
#[verifier::rlimit(50)]
proof fn lemma_round_trip_mid(r: RecordModel)
    ensures
        expect(encode_line(r), pos_sender_end(r), lit_receiver()) == Some(
            pos_sender_end(r) + lit_receiver().len(),
        ),
        parse_string_body(encode_line(r), pos_sender_end(r) + lit_receiver().len()) == Some(
            (r.receiver, pos_receiver_end(r)),
        ),
{
    let s = encode_line(r);
    let a = escaped(r.signature);
    let b = escaped(r.sender);
    let c = escaped(r.receiver);

    let rest5 = c + lit_amount() + dec_digits(r.amount as nat) + lit_timestamp() + dec_digits(
        r.timestamp as nat,
    ) + lit_close();
    assert(s =~= (lit_sig() + a + lit_sender() + b) + lit_receiver() + rest5);
    lemma_expect_at(lit_sig() + a + lit_sender() + b, lit_receiver(), rest5);

    let rest6 = lit_amount() + dec_digits(r.amount as nat) + lit_timestamp() + dec_digits(
        r.timestamp as nat,
    ) + lit_close();
    assert(s =~= (lit_sig() + a + lit_sender() + b + lit_receiver()) + c + rest6);
    reveal_strlit("\",\"amount\":");
    assert(rest6[0] == '"');
    lemma_parse_string_at(lit_sig() + a + lit_sender() + b + lit_receiver(), r.receiver, rest6);
}

/// The encoded line parses back through its two numbers and its close.
#[verifier::rlimit(50)]
proof fn lemma_round_trip_tail(r: RecordModel)
    ensures
        expect(encode_line(r), pos_receiver_end(r), lit_amount()) == Some(
            pos_receiver_end(r) + lit_amount().len(),
        ),
        parse_number(encode_line(r), pos_receiver_end(r) + lit_amount().len()) == Some(
            (r.amount, pos_amount_end(r)),
        ),
        expect(encode_line(r), pos_amount_end(r), lit_timestamp()) == Some(
            pos_amount_end(r) + lit_timestamp().len(),
        ),
        parse_number(encode_line(r), pos_amount_end(r) + lit_timestamp().len()) == Some(
            (r.timestamp, pos_timestamp_end(r)),
        ),
        expect(encode_line(r), pos_timestamp_end(r), lit_close()) == Some(
            pos_timestamp_end(r) + lit_close().len(),
        ),
        pos_timestamp_end(r) + lit_close().len() == encode_line(r).len(),
{
    let s = encode_line(r);
    let a = escaped(r.signature);
    let b = escaped(r.sender);
    let c = escaped(r.receiver);
    let d1 = dec_digits(r.amount as nat);
    let d2 = dec_digits(r.timestamp as nat);
    let head = lit_sig() + a + lit_sender() + b + lit_receiver() + c;

    let rest7 = d1 + lit_timestamp() + d2 + lit_close();
    assert(s =~= head + lit_amount() + rest7);
    lemma_expect_at(head, lit_amount(), rest7);

    let rest8 = lit_timestamp() + d2 + lit_close();
    assert(s =~= (head + lit_amount()) + d1 + rest8);
    reveal_strlit(",\"timestamp\":");
    assert(rest8[0] == ',');
    assert(!is_digit(','));
    lemma_parse_number_at(head + lit_amount(), r.amount, rest8);

    let rest9 = d2 + lit_close();
    assert(s =~= (head + lit_amount() + d1) + lit_timestamp() + rest9);
    lemma_expect_at(head + lit_amount() + d1, lit_timestamp(), rest9);

    assert(s =~= (head + lit_amount() + d1 + lit_timestamp()) + d2 + lit_close());
    reveal_strlit("}");
    assert(lit_close()[0] == '}');
    assert(!is_digit('}'));
    lemma_parse_number_at(head + lit_amount() + d1 + lit_timestamp(), r.timestamp, lit_close());

    assert(s =~= (head + lit_amount() + d1 + lit_timestamp() + d2) + lit_close()
        + Seq::<char>::empty());
    lemma_expect_at(head + lit_amount() + d1 + lit_timestamp() + d2, lit_close(), Seq::empty());
}

/// Law: decoding the line that encodes a record yields the record back,
/// every field equal.
#[verifier::rlimit(50)]
pub proof fn lemma_round_trip(r: RecordModel)
    ensures
        parse_line(encode_line(r)) == Some(r),
{
    lemma_round_trip_head(r);
    lemma_round_trip_mid(r);
    lemma_round_trip_tail(r);
    assert(parse_line(encode_line(r)) == Some(
        RecordModel {
            signature: r.signature,
            sender: r.sender,
            receiver: r.receiver,
            amount: r.amount,
            timestamp: r.timestamp,
        },
    ));
}

/// The record a line stands for, or nothing for any other line.
pub fn decode_record(line: &str) -> (r: Option<TransactionData>)
    ensures
        match r {
            Some(t) => parse_line(line@) == Some(t@),
            None => parse_line(line@) is None,
        },
{
    let i1 = match match_literal(line, 0, "{\"signature\":\"") {
        Some(j) => j,
        None => {
            return None;
        },
    };
    let (signature, q1) = match parse_string_exec(line, i1) {
        Some(p) => p,
        None => {
            return None;
        },
    };
    let i2 = match match_literal(line, q1, "\",\"sender\":\"") {
        Some(j) => j,
        None => {
            return None;
        },
    };
    let (sender, q2) = match parse_string_exec(line, i2) {
        Some(p) => p,
        None => {
            return None;
        },
    };
    let i3 = match match_literal(line, q2, "\",\"receiver\":\"") {
        Some(j) => j,
        None => {
            return None;
        },
    };
    let (receiver, q3) = match parse_string_exec(line, i3) {
        Some(p) => p,
        None => {
            return None;
        },
    };
    let i4 = match match_literal(line, q3, "\",\"amount\":") {
        Some(j) => j,
        None => {
            return None;
        },
    };
    let (amount, q4) = match parse_number_exec(line, i4) {
        Some(p) => p,
        None => {
            return None;
        },
    };
    let i5 = match match_literal(line, q4, ",\"timestamp\":") {
        Some(j) => j,
        None => {
            return None;
        },
    };
    let (timestamp, q5) = match parse_number_exec(line, i5) {
        Some(p) => p,
        None => {
            return None;
        },
    };
    let i6 = match match_literal(line, q5, "}") {
        Some(j) => j,
        None => {
            return None;
        },
    };
    if i6 != line.unicode_len() {
        return None;
    }
    Some(TransactionData { signature, sender, receiver, amount, timestamp })
}

} // verus!
