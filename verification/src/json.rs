//! The pieces of the wire text: literal text, decimal numbers and lists.
//!
//! The wire text is a compact subset of JSON. Every value has exactly one
//! encoding, so a payload decodes to a value if and only if it is that
//! value's encoding, byte for byte.

use crate::hashing::push_bytes;
use vstd::prelude::*;
use vstd::string::*;

verus! {

/// The byte `0`.
pub const ZERO: u8 = 48;

/// The byte `9`.
pub const NINE: u8 = 57;

/// The byte `,`.
pub const COMMA: u8 = 44;

/// The byte `[`.
pub const OPEN: u8 = 91;

/// The byte `]`.
pub const CLOSE: u8 = 93;

/// The bytes of a text made of ASCII characters.
pub open spec fn ascii(text: Seq<char>) -> Seq<u8> {
    Seq::new(text.len(), |i: int| text[i] as u8)
}

/// Whether `pattern` stands in `s` at position `pos`.
pub open spec fn matches_at(s: Seq<u8>, pos: int, pattern: Seq<u8>) -> bool {
    &&& 0 <= pos
    &&& pos + pattern.len() <= s.len()
    &&& s.subrange(pos, pos + pattern.len()) == pattern
}

/// A pattern made of two parts stands at `pos` exactly when the first part
/// stands there and the second right after it.
pub proof fn lemma_matches_concat(s: Seq<u8>, pos: int, a: Seq<u8>, b: Seq<u8>)
    ensures
        matches_at(s, pos, a + b) <==> matches_at(s, pos, a) && matches_at(s, pos + a.len(), b),
{
    if matches_at(s, pos, a + b) {
        assert(s.subrange(pos, pos + a.len()) =~= (a + b).subrange(0, a.len() as int));
        assert((a + b).subrange(0, a.len() as int) =~= a);
        assert(s.subrange(pos + a.len(), pos + a.len() + b.len()) =~= (a + b).subrange(
            a.len() as int,
            (a + b).len() as int,
        ));
        assert((a + b).subrange(a.len() as int, (a + b).len() as int) =~= b);
    }
    if matches_at(s, pos, a) && matches_at(s, pos + a.len(), b) {
        assert(s.subrange(pos, pos + (a + b).len()) =~= s.subrange(pos, pos + a.len())
            + s.subrange(pos + a.len(), pos + a.len() + b.len()));
    }
}

/// Each byte of a pattern that stands at `pos` is the byte of `s` there.
pub proof fn lemma_matches_byte(s: Seq<u8>, pos: int, pattern: Seq<u8>, i: int)
    requires
        matches_at(s, pos, pattern),
        0 <= i < pattern.len(),
    ensures
        s[pos + i] == pattern[i],
{
    assert(s.subrange(pos, pos + pattern.len())[i] == s[pos + i]);
}

/// Appends an ASCII text to `out`.
pub fn push_text(out: &mut Vec<u8>, text: &str)
    requires
        text.is_ascii(),
    ensures
        final(out)@ == old(out)@ + ascii(text@),
{
    proof {
        is_ascii_spec_bytes(text);
    }
    push_bytes(out, text.as_bytes());
}

/// Tests whether an ASCII text stands in `s` at `pos`, and returns the
/// position after it.
pub fn expect_text(s: &[u8], pos: usize, text: &str) -> (after: Option<usize>)
    requires
        text.is_ascii(),
        pos <= s.len(),
    ensures
        after is Some <==> matches_at(s@, pos as int, ascii(text@)),
        after matches Some(end) ==> end == pos + text@.len(),
{
    proof {
        is_ascii_spec_bytes(text);
    }
    let pattern = text.as_bytes();
    let n = pattern.len();
    if n > s.len() - pos {
        return None;
    }
    let mut i: usize = 0;
    while i < n
        invariant
            n == pattern@.len(),
            pattern@ == ascii(text@),
            pos + n <= s.len(),
            i <= n,
            forall|k: int| 0 <= k < i ==> s@[pos + k] == pattern@[k],
        decreases n - i,
    {
        if s[pos + i] != pattern[i] {
            proof {
                if matches_at(s@, pos as int, pattern@) {
                    lemma_matches_byte(s@, pos as int, pattern@, i as int);
                }
            }
            return None;
        }
        i += 1;
    }
    assert(s@.subrange(pos as int, pos + n) =~= pattern@);
    Some(pos + n)
}

/// Whether `b` is one of the bytes `0` to `9`.
pub open spec fn is_digit(b: u8) -> bool {
    ZERO <= b <= NINE
}

/// The decimal digits of `n`, without leading zeros.
pub open spec fn decimal(n: nat) -> Seq<u8>
    decreases n,
{
    if n < 10 {
        seq![(ZERO + n) as u8]
    } else {
        decimal(n / 10).push((ZERO + n % 10) as u8)
    }
}

/// The number that a row of digits stands for.
pub open spec fn digits_value(digits: Seq<u8>) -> nat
    decreases digits.len(),
{
    if digits.len() == 0 {
        0
    } else {
        digits_value(digits.drop_last()) * 10 + (digits.last() - ZERO) as nat
    }
}

/// Whether every byte of `s` is a digit.
pub open spec fn all_digits(s: Seq<u8>) -> bool {
    forall|i: int| 0 <= i < s.len() ==> is_digit(#[trigger] s[i])
}

/// Whether `s` is the decimal form of a number: at least one digit, and no
/// leading zero on a number of several digits.
pub open spec fn is_decimal(s: Seq<u8>) -> bool {
    &&& s.len() >= 1
    &&& all_digits(s)
    &&& s.len() > 1 ==> s[0] != ZERO
}

/// Whether a number that ends before position `end` of `s` ends there: no
/// further digit follows.
pub open spec fn ends_number(s: Seq<u8>, end: int) -> bool {
    end >= s.len() || (0 <= end && !is_digit(s[end]))
}

/// The digits of a number are its decimal form, and stand for it.
pub proof fn lemma_decimal(n: nat)
    ensures
        is_decimal(decimal(n)),
        digits_value(decimal(n)) == n,
        decimal(n)[0] == ZERO <==> n == 0,
    decreases n,
{
    if n >= 10 {
        lemma_decimal(n / 10);
        let head = decimal(n / 10);
        let all = decimal(n);
        assert(all.drop_last() =~= head);
        assert forall|i: int| 0 <= i < all.len() implies is_digit(#[trigger] all[i]) by {
            if i < head.len() {
                assert(all[i] == head[i]);
            }
        }
        assert(all[0] == head[0]);
        assert(all.last() == (ZERO + n % 10) as u8);
        assert(digits_value(all) == digits_value(head) * 10 + n % 10);
    } else {
        let all = decimal(n);
        assert(all.drop_last() =~= Seq::<u8>::empty());
        assert(digits_value(all.drop_last()) == 0);
        assert(all.last() == (ZERO + n) as u8);
    }
}

/// A decimal form that does not start with zero stands for a positive
/// number.
proof fn lemma_value_positive(s: Seq<u8>)
    requires
        s.len() >= 1,
        all_digits(s),
        s[0] != ZERO,
    ensures
        digits_value(s) >= 1,
    decreases s.len(),
{
    if s.len() > 1 {
        let head = s.drop_last();
        assert(head[0] == s[0]);
        assert forall|i: int| 0 <= i < head.len() implies is_digit(#[trigger] head[i]) by {
            assert(head[i] == s[i]);
        }
        lemma_value_positive(head);
    } else {
        assert(s.drop_last().len() == 0);
        assert(is_digit(s[0]));
    }
}

/// A decimal form is the decimal form of the number it stands for.
pub proof fn lemma_decimal_of_value(s: Seq<u8>)
    requires
        is_decimal(s),
    ensures
        decimal(digits_value(s)) == s,
    decreases s.len(),
{
    let head = s.drop_last();
    assert(is_digit(s.last()));
    if s.len() == 1 {
        assert(head.len() == 0);
        assert(digits_value(head) == 0);
        assert(decimal(digits_value(s)) =~= s);
    } else {
        assert(head[0] == s[0]);
        assert forall|i: int| 0 <= i < head.len() implies is_digit(#[trigger] head[i]) by {
            assert(head[i] == s[i]);
        }
        lemma_value_positive(head);
        lemma_decimal_of_value(head);
        let v = digits_value(s);
        assert(v / 10 == digits_value(head));
        assert(v % 10 == s.last() - ZERO);
        assert(decimal(v) =~= s);
    }
}

/// The first digits of a row stand for no more than the whole row.
pub proof fn lemma_value_of_prefix(s: Seq<u8>, k: int)
    requires
        all_digits(s),
        0 <= k <= s.len(),
    ensures
        digits_value(s.take(k)) <= digits_value(s),
    decreases s.len(),
{
    if k < s.len() {
        let head = s.drop_last();
        assert forall|i: int| 0 <= i < head.len() implies is_digit(#[trigger] head[i]) by {
            assert(head[i] == s[i]);
        }
        lemma_value_of_prefix(head, k);
        assert(head.take(k) =~= s.take(k));
    } else {
        assert(s.take(k) =~= s);
    }
}

/// Appends the decimal form of `n` to `out`.
pub fn push_decimal(out: &mut Vec<u8>, n: u64)
    ensures
        final(out)@ == old(out)@ + decimal(n as nat),
    decreases n,
{
    if n >= 10 {
        push_decimal(out, n / 10);
    }
    out.push(ZERO + (n % 10) as u8);
    assert(out@ =~= old(out)@ + decimal(n as nat));
}

/// Reads a decimal number at `pos`: the longest row of digits there, if it
/// is the decimal form of a number that fits in 64 bits. Returns the number
/// and the position after it.
pub fn parse_number(s: &[u8], pos: usize) -> (parsed: Option<(u64, usize)>)
    requires
        pos <= s.len(),
    ensures
        parsed matches Some((n, end)) ==> matches_at(s@, pos as int, decimal(n as nat)) && end
            == pos + decimal(n as nat).len() && ends_number(s@, end as int),
        forall|n: u64| #[trigger]
            matches_at(s@, pos as int, decimal(n as nat)) && ends_number(
                s@,
                pos + decimal(n as nat).len(),
            ) ==> parsed == Some((n, (pos + decimal(n as nat).len()) as usize)),
{
    let mut value: u64 = 0;
    let mut i: usize = pos;
    while i < s.len() && ZERO <= s[i] && s[i] <= NINE
        invariant
            pos <= i <= s.len(),
            all_digits(s@.subrange(pos as int, i as int)),
            value == digits_value(s@.subrange(pos as int, i as int)),
            forall|n: u64| #[trigger]
                matches_at(s@, pos as int, decimal(n as nat)) && ends_number(
                    s@,
                    pos + decimal(n as nat).len(),
                ) ==> i <= pos + decimal(n as nat).len(),
        decreases s.len() - i,
    {
        let digit = (s[i] - ZERO) as u64;
        let ghost run = s@.subrange(pos as int, i + 1);
        assert(run.drop_last() =~= s@.subrange(pos as int, i as int));
        assert(all_digits(run)) by {
            assert forall|k: int| 0 <= k < run.len() implies is_digit(#[trigger] run[k]) by {
                if k < run.len() - 1 {
                    assert(run[k] == s@.subrange(pos as int, i as int)[k]);
                }
            }
        }
        assert forall|n: u64| #[trigger]
            matches_at(s@, pos as int, decimal(n as nat)) && ends_number(
                s@,
                pos + decimal(n as nat).len(),
            ) implies i + 1 <= pos + decimal(n as nat).len() && digits_value(run) <= n by {
            let form = decimal(n as nat);
            lemma_decimal(n as nat);
            assert(form.take(i + 1 - pos) =~= run);
            lemma_value_of_prefix(form, i + 1 - pos);
        }
        if value > (u64::MAX - digit) / 10 {
            return None;
        }
        value = value * 10 + digit;
        i += 1;
    }
    let ghost run = s@.subrange(pos as int, i as int);
    assert forall|n: u64| #[trigger]
        matches_at(s@, pos as int, decimal(n as nat)) && ends_number(
            s@,
            pos + decimal(n as nat).len(),
        ) implies run == decimal(n as nat) by {
        let form = decimal(n as nat);
        lemma_decimal(n as nat);
        if i < pos + form.len() {
            lemma_matches_byte(s@, pos as int, form, i - pos);
            assert(is_digit(form[i - pos]));
        }
    }
    if i == pos || (i - pos > 1 && s[pos] == ZERO) {
        proof {
            assert forall|n: u64| #[trigger]
                matches_at(s@, pos as int, decimal(n as nat)) && ends_number(
                    s@,
                    pos + decimal(n as nat).len(),
                ) implies false by {
                lemma_decimal(n as nat);
                assert(run == decimal(n as nat));
            }
        }
        return None;
    }
    proof {
        assert(run[0] == s@[pos as int]);
        lemma_decimal_of_value(run);
        assert forall|n: u64| #[trigger]
            matches_at(s@, pos as int, decimal(n as nat)) && ends_number(
                s@,
                pos + decimal(n as nat).len(),
            ) implies n == value by {
            lemma_decimal(n as nat);
            assert(run == decimal(n as nat));
        }
    }
    Some((value, i))
}

/// The lead of a list: its first `k` parts, each followed by a comma.
pub open spec fn lead(parts: Seq<Seq<u8>>, k: int) -> Seq<u8>
    decreases k,
{
    if k <= 0 {
        Seq::empty()
    } else {
        lead(parts, k - 1) + parts[k - 1] + seq![COMMA]
    }
}

/// A list: the parts between brackets, with a comma between neighbours.
pub open spec fn json_array(parts: Seq<Seq<u8>>) -> Seq<u8> {
    if parts.len() == 0 {
        seq![OPEN, CLOSE]
    } else {
        seq![OPEN] + lead(parts, parts.len() - 1) + parts.last() + seq![CLOSE]
    }
}

/// The lead of a list up to part `k` depends on the first `k` parts alone.
pub proof fn lemma_lead_of_prefix(a: Seq<Seq<u8>>, b: Seq<Seq<u8>>, k: int)
    requires
        0 <= k <= a.len(),
        k <= b.len(),
        a.take(k) == b.take(k),
    ensures
        lead(a, k) == lead(b, k),
    decreases k,
{
    if k > 0 {
        assert(a.take(k - 1) =~= a.take(k).take(k - 1));
        assert(b.take(k - 1) =~= b.take(k).take(k - 1));
        lemma_lead_of_prefix(a, b, k - 1);
        assert(a[k - 1] == a.take(k)[k - 1]);
        assert(b[k - 1] == b.take(k)[k - 1]);
    }
}

/// The lead up to part `k` opens the lead up to part `m`, for `k <= m`.
proof fn lemma_lead_grows(parts: Seq<Seq<u8>>, k: int, m: int)
    requires
        0 <= k <= m,
    ensures
        lead(parts, k).is_prefix_of(lead(parts, m)),
    decreases m,
{
    if k < m {
        lemma_lead_grows(parts, k, m - 1);
        let whole = lead(parts, m);
        let shorter = lead(parts, m - 1);
        assert(shorter.is_prefix_of(whole)) by {
            assert(whole.subrange(0, shorter.len() as int) =~= shorter);
        }
        assert(lead(parts, k) =~= whole.subrange(0, lead(parts, k).len() as int)) by {
            assert(lead(parts, k) == shorter.subrange(0, lead(parts, k).len() as int));
        }
    } else {
        assert(lead(parts, k).subrange(0, lead(parts, k).len() as int) =~= lead(parts, k));
    }
}

/// What opens a pattern that stands at `pos` stands there too.
pub proof fn lemma_matches_prefix(s: Seq<u8>, pos: int, whole: Seq<u8>, opening: Seq<u8>)
    requires
        matches_at(s, pos, whole),
        opening.is_prefix_of(whole),
    ensures
        matches_at(s, pos, opening),
{
    assert(s.subrange(pos, pos + opening.len()) =~= whole.subrange(0, opening.len() as int));
}

/// Where a list stands at `pos`, its part `k` stands after the bracket and
/// the parts before it, and is followed by a comma, or by the closing
/// bracket if it is the last.
pub proof fn lemma_array_part(s: Seq<u8>, pos: int, parts: Seq<Seq<u8>>, k: int)
    requires
        matches_at(s, pos, json_array(parts)),
        0 <= k < parts.len(),
    ensures
        s[pos] == OPEN,
        matches_at(s, pos + 1 + lead(parts, k).len(), parts[k]),
        pos + 1 + lead(parts, k).len() + parts[k].len() < s.len(),
        s[pos + 1 + lead(parts, k).len() + parts[k].len()] == if k + 1 < parts.len() {
            COMMA
        } else {
            CLOSE
        },
        k + 1 == parts.len() ==> json_array(parts).len() == lead(parts, k).len() + parts[k].len()
            + 2,
{
    let whole = json_array(parts);
    let last = parts.len() - 1;
    lemma_matches_byte(s, pos, whole, 0);
    let sep = if k + 1 < parts.len() {
        COMMA
    } else {
        CLOSE
    };
    let opening = seq![OPEN] + lead(parts, k) + parts[k] + seq![sep];
    assert(opening.is_prefix_of(whole)) by {
        if k < last {
            lemma_lead_grows(parts, k + 1, last);
            let next = lead(parts, k + 1);
            assert(next == lead(parts, k) + parts[k] + seq![COMMA]);
            assert(next =~= lead(parts, last).subrange(0, next.len() as int));
            assert(opening =~= seq![OPEN] + next);
            let reach = next.len() as int;
            let opened = lead(parts, last).subrange(0, reach);
            assert(whole.subrange(0, 1 + reach) =~= seq![OPEN] + opened);
        } else {
            assert(opening =~= whole);
            assert(whole.subrange(0, whole.len() as int) =~= whole);
        }
    }
    lemma_matches_prefix(s, pos, whole, opening);
    lemma_matches_concat(s, pos, seq![OPEN] + lead(parts, k) + parts[k], seq![sep]);
    lemma_matches_concat(s, pos, seq![OPEN] + lead(parts, k), parts[k]);
    lemma_matches_byte(s, pos + 1 + lead(parts, k).len() + parts[k].len(), seq![sep], 0);
}

/// The decimal forms of a row of bytes.
pub open spec fn decimals(bytes: Seq<u8>) -> Seq<Seq<u8>> {
    Seq::new(bytes.len(), |i: int| decimal(bytes[i] as nat))
}

/// A row of bytes as a list of numbers.
pub open spec fn bytes_json(bytes: Seq<u8>) -> Seq<u8> {
    json_array(decimals(bytes))
}

/// Appends a row of bytes to `out`, as a list of numbers.
pub fn push_bytes_json(out: &mut Vec<u8>, bytes: &[u8])
    ensures
        final(out)@ == old(out)@ + bytes_json(bytes@),
{
    let n = bytes.len();
    out.push(OPEN);
    if n == 0 {
        out.push(CLOSE);
        assert(out@ =~= old(out)@ + bytes_json(bytes@));
        return ;
    }
    let ghost parts = decimals(bytes@);
    let mut i: usize = 0;
    while i < n - 1
        invariant
            n == bytes@.len(),
            n >= 1,
            i <= n - 1,
            parts == decimals(bytes@),
            out@ == old(out)@ + seq![OPEN] + lead(parts, i as int),
        decreases n - i,
    {
        push_decimal(out, bytes[i] as u64);
        out.push(COMMA);
        assert(out@ =~= old(out)@ + seq![OPEN] + lead(parts, i + 1));
        i += 1;
    }
    push_decimal(out, bytes[n - 1] as u64);
    out.push(CLOSE);
    assert(out@ =~= old(out)@ + bytes_json(bytes@));
}

/// Reads a list of exactly `N` numbers between 0 and 255 at `pos`.
/// Returns the bytes and the position after the list. For `N == 0` that is
/// the empty list.
pub fn parse_bytes_json<const N: usize>(s: &[u8], pos: usize) -> (parsed: Option<([u8; N], usize)>)
    requires
        pos <= s.len(),
    ensures
        parsed matches Some((bytes, end)) ==> matches_at(s@, pos as int, bytes_json(bytes@)) && end
            == pos + bytes_json(bytes@).len(),
        forall|bytes: [u8; N]| #[trigger]
            matches_at(s@, pos as int, bytes_json(bytes@)) ==> parsed == Some(
                (bytes, (pos + bytes_json(bytes@).len()) as usize),
            ),
{
    if pos >= s.len() || s[pos] != OPEN {
        proof {
            assert forall|bytes: [u8; N]| #[trigger]
                matches_at(s@, pos as int, bytes_json(bytes@)) implies false by {
                lemma_matches_byte(s@, pos as int, bytes_json(bytes@), 0);
            }
        }
        return None;
    }
    let mut out: [u8; N] = [0u8; N];
    if N == 0 {
        if pos + 1 >= s.len() || s[pos + 1] != CLOSE {
            proof {
                assert forall|bytes: [u8; N]| #[trigger]
                    matches_at(s@, pos as int, bytes_json(bytes@)) implies false by {
                    assert(decimals(bytes@).len() == 0);
                    lemma_matches_byte(s@, pos as int, bytes_json(bytes@), 1);
                }
            }
            return None;
        }
        proof {
            assert(decimals(out@).len() == 0);
            assert(s@.subrange(pos as int, pos + 2) =~= bytes_json(out@));
            assert forall|bytes: [u8; N]| #[trigger]
                matches_at(s@, pos as int, bytes_json(bytes@)) implies bytes == out by {
                assert(bytes =~= out);
                assert(decimals(bytes@).len() == 0);
            }
        }
        return Some((out, pos + 2));
    }
    let ghost mut got: Seq<u8> = Seq::empty();
    let mut p: usize = pos + 1;
    let mut k: usize = 0;
    assert(s@.subrange(pos as int, pos + 1) =~= seq![OPEN]);
    loop
        invariant_except_break
            k < N,
            pos < p <= s.len(),
            got.len() == k,
            got == out@.take(k as int),
            p == pos + 1 + lead(decimals(got), k as int).len(),
            matches_at(s@, pos as int, seq![OPEN] + lead(decimals(got), k as int)),
            forall|bytes: [u8; N]| #[trigger]
                matches_at(s@, pos as int, bytes_json(bytes@)) ==> bytes@.take(k as int) == got,
        ensures
            k == N,
            p <= s.len(),
            got == out@,
            p == pos + bytes_json(got).len(),
            matches_at(s@, pos as int, bytes_json(got)),
            forall|bytes: [u8; N]| #[trigger]
                matches_at(s@, pos as int, bytes_json(bytes@)) ==> bytes@ == got,
        decreases N - k,
    {
        let item = parse_number(s, p);
        proof {
            assert forall|bytes: [u8; N]| #[trigger]
                matches_at(s@, pos as int, bytes_json(bytes@)) implies item == Some(
                (bytes[k as int] as u64, (p + decimal(bytes[k as int] as nat).len()) as usize),
            ) by {
                let theirs = decimals(bytes@);
                lemma_array_part(s@, pos as int, theirs, k as int);
                assert(theirs.take(k as int) =~= decimals(got).take(k as int));
                lemma_lead_of_prefix(theirs, decimals(got), k as int);
                let n = bytes[k as int] as u64;
                assert(theirs[k as int] == decimal(n as nat));
                assert(matches_at(s@, p as int, decimal(n as nat)));
                assert(ends_number(s@, p + decimal(n as nat).len()));
            }
        }
        let (value, q) = match item {
            Some(pair) => pair,
            None => {
                return None;
            },
        };
        if value > 255 || q >= s.len() {
            proof {
                assert forall|bytes: [u8; N]| #[trigger]
                    matches_at(s@, pos as int, bytes_json(bytes@)) implies false by {
                    lemma_array_part(s@, pos as int, decimals(bytes@), k as int);
                    assert(decimals(bytes@).take(k as int) =~= decimals(got).take(k as int));
                    lemma_lead_of_prefix(decimals(bytes@), decimals(got), k as int);
                }
            }
            return None;
        }
        let byte = value as u8;
        let sep = if k + 1 < N {
            COMMA
        } else {
            CLOSE
        };
        if s[q] != sep {
            proof {
                assert forall|bytes: [u8; N]| #[trigger]
                    matches_at(s@, pos as int, bytes_json(bytes@)) implies false by {
                    lemma_array_part(s@, pos as int, decimals(bytes@), k as int);
                    assert(decimals(bytes@).take(k as int) =~= decimals(got).take(k as int));
                    lemma_lead_of_prefix(decimals(bytes@), decimals(got), k as int);
                }
            }
            return None;
        }
        out[k] = byte;
        proof {
            let before = got;
            got = got.push(byte);
            assert(got =~= out@.take(k + 1));
            let mine = decimals(got);
            assert(mine.take(k as int) =~= decimals(before).take(k as int));
            lemma_lead_of_prefix(mine, decimals(before), k as int);
            assert(mine[k as int] == decimal(byte as nat));
            assert(s@.subrange(q as int, q + 1) =~= seq![sep]);
            lemma_matches_concat(
                s@,
                pos as int,
                seq![OPEN] + lead(mine, k as int),
                decimal(byte as nat),
            );
            lemma_matches_concat(
                s@,
                pos as int,
                seq![OPEN] + lead(mine, k as int) + decimal(byte as nat),
                seq![sep],
            );
            assert forall|bytes: [u8; N]| #[trigger]
                matches_at(s@, pos as int, bytes_json(bytes@)) implies bytes@.take(k + 1)
                == got by {
                assert(bytes@.take(k as int) == before);
                assert(bytes@.take(k + 1) =~= bytes@.take(k as int).push(bytes[k as int]));
            }
            let read = seq![OPEN] + lead(mine, k as int) + decimal(byte as nat) + seq![sep];
            if k + 1 < N {
                assert(read =~= seq![OPEN] + lead(mine, k + 1));
            } else {
                assert(mine.last() == decimal(byte as nat));
                assert(read =~= bytes_json(got));
                assert(got =~= out@);
                assert forall|bytes: [u8; N]| #[trigger]
                    matches_at(s@, pos as int, bytes_json(bytes@)) implies bytes@ == got by {
                    assert(bytes@.take(k + 1) =~= bytes@);
                }
            }
        }
        p = q + 1;
        k += 1;
        if k == N {
            break ;
        }
    }
    proof {
        assert forall|bytes: [u8; N]| #[trigger]
            matches_at(s@, pos as int, bytes_json(bytes@)) implies bytes == out by {
            assert(bytes@ == out@);
            assert(bytes =~= out);
        }
    }
    Some((out, p))
}

} // verus!
