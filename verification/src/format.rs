//! Plain-text formatting of the library's values.
//!
//! Text is assembled as ASCII bytes with exact byte-level specifications and
//! becomes a `String` in one step at the end.

use vstd::prelude::*;

use vstd::string::StringSliceAdditionalSpecFns;
use crate::date_time::DateTime;
use crate::date_time::spec_ymd_of;

verus! {

/// The characters of a sequence of ASCII bytes, one per byte.
pub open spec fn ascii_chars_of(s: Seq<u8>) -> Seq<char> {
    Seq::new(s.len(), |i: int| s[i] as char)
}

/// Relies on `String::from_utf8`: bytes below 128 are valid UTF-8 and decode
/// one byte to the character of the same code, so the call cannot fail.
#[verifier::external_body]
pub fn string_from_ascii(bytes: Vec<u8>) -> (r: String)
    requires
        forall|i: int| 0 <= i < bytes@.len() ==> bytes@[i] < 128,
    ensures
        r@ == ascii_chars_of(bytes@),
{
    String::from_utf8(bytes).unwrap()
}

/// The decimal digits of a nonnegative number, as ASCII bytes, no sign and
/// no padding.
pub open spec fn dec_bytes(n: int) -> Seq<u8>
    decreases n,
{
    if n < 10 {
        seq![(48 + if n >= 0 { n } else { 0 }) as u8]
    } else {
        dec_bytes(n / 10).push((48 + n % 10) as u8)
    }
}

/// Digits are ASCII.
pub proof fn lemma_dec_bytes_ascii(n: int)
    ensures
        forall|i: int| 0 <= i < dec_bytes(n).len() ==> 48 <= #[trigger] dec_bytes(n)[i] <= 57,
        dec_bytes(n).len() >= 1,
    decreases n,
{
    if n >= 10 {
        lemma_dec_bytes_ascii(n / 10);
        assert forall|i: int| 0 <= i < dec_bytes(n).len() implies 48 <= #[trigger] dec_bytes(
            n,
        )[i] <= 57 by {
            if i < dec_bytes(n / 10).len() {
                assert(dec_bytes(n)[i] == dec_bytes(n / 10)[i]);
            }
        }
    }
}

/// Append the decimal digits of `n`.
pub fn push_dec(out: &mut Vec<u8>, n: u64)
    ensures
        final(out)@ == old(out)@ + dec_bytes(n as int),
        all_ascii(old(out)@) ==> all_ascii(final(out)@),
    decreases n,
{
    proof {
        lemma_dec_bytes_ascii(n as int);
    }
    if n < 10 {
        out.push(48 + (n as u8));
        proof {
            assert(final(out)@ =~= old(out)@ + dec_bytes(n as int));
        }
    } else {
        push_dec(out, n / 10);
        out.push(48 + ((n % 10) as u8));
        proof {
            assert(final(out)@ =~= old(out)@ + dec_bytes(n as int));
        }
    }
}

/// The digits of `n`, left-padded with spaces to at least `width` bytes.
pub open spec fn padded_dec(n: int, width: int) -> Seq<u8> {
    let d = dec_bytes(n);
    if d.len() >= width {
        d
    } else {
        Seq::new((width - d.len()) as nat, |i: int| 32u8) + d
    }
}

/// Append the digits of `n`, left-padded with spaces to `width`.
pub fn push_padded_dec(out: &mut Vec<u8>, n: u64, width: usize)
    ensures
        final(out)@ == old(out)@ + padded_dec(n as int, width as int),
        all_ascii(old(out)@) ==> all_ascii(final(out)@),
{
    proof {
        lemma_dec_bytes_ascii(n as int);
    }
    let mut digits: Vec<u8> = Vec::new();
    push_dec(&mut digits, n);
    proof {
        assert(digits@ =~= dec_bytes(n as int));
    }
    if digits.len() < width {
        let pad = width - digits.len();
        let mut i: usize = 0;
        while i < pad
            invariant
                i <= pad,
                pad == width - dec_bytes(n as int).len(),
                out@ == old(out)@ + Seq::new(i as nat, |k: int| 32u8),
            decreases pad - i,
        {
            out.push(32);
            proof {
                assert(out@ =~= old(out)@ + Seq::new((i + 1) as nat, |k: int| 32u8));
            }
            i = i + 1;
        }
        let mut j: usize = 0;
        while j < digits.len()
            invariant
                j <= digits@.len(),
                digits@ == dec_bytes(n as int),
                dec_bytes(n as int).len() < width,
                out@ == old(out)@ + Seq::new((width - digits@.len()) as nat, |k: int| 32u8)
                    + digits@.take(j as int),
            decreases digits@.len() - j,
        {
            let b = digits[j];
            out.push(b);
            proof {
                assert(out@ =~= old(out)@ + Seq::new((width - digits@.len()) as nat, |k: int| 32u8)
                    + digits@.take(j + 1 as int));
            }
            j = j + 1;
        }
        proof {
            assert(digits@.take(digits@.len() as int) =~= digits@);
        }
    } else {
        let mut j: usize = 0;
        while j < digits.len()
            invariant
                j <= digits@.len(),
                digits@ == dec_bytes(n as int),
                out@ == old(out)@ + digits@.take(j as int),
            decreases digits@.len() - j,
        {
            let b = digits[j];
            out.push(b);
            proof {
                assert(out@ =~= old(out)@ + digits@.take(j + 1 as int));
            }
            j = j + 1;
        }
        proof {
            assert(digits@.take(digits@.len() as int) =~= digits@);
        }
    }
}

/// All bytes are ASCII.
pub open spec fn all_ascii(s: Seq<u8>) -> bool {
    forall|i: int| 0 <= i < s.len() ==> s[i] < 128
}


/// Hours in centihour precision: minutes over sixty, rounded half up to two
/// decimals.
pub open spec fn centihours_of(minutes: int) -> int {
    (minutes * 10 + 3) / 6
}

/// The text of an hours amount: whole hours, then up to two decimals with
/// trailing zeros dropped.
pub open spec fn hours_bytes(minutes: int) -> Seq<u8> {
    let ch = centihours_of(minutes);
    if ch % 100 == 0 {
        dec_bytes(ch / 100)
    } else if ch % 10 == 0 {
        dec_bytes(ch / 100) + seq![46u8, (48 + (ch / 10) % 10) as u8]
    } else {
        dec_bytes(ch / 100) + seq![46u8, (48 + (ch / 10) % 10) as u8, (48 + ch % 10) as u8]
    }
}

/// Append the text of an hours amount given in minutes.
pub fn push_hours(out: &mut Vec<u8>, minutes: u64)
    requires
        minutes <= 6_000_000_000,
    ensures
        final(out)@ == old(out)@ + hours_bytes(minutes as int),
        all_ascii(old(out)@) ==> all_ascii(final(out)@),
{
    proof {
        lemma_dec_bytes_ascii(centihours_of(minutes as int) / 100);
    }
    let ch = (minutes * 10 + 3) / 6;
    push_dec(out, ch / 100);
    if ch % 100 != 0 {
        out.push(46);
        out.push(48 + ((ch / 10 % 10) as u8));
        if ch % 10 != 0 {
            out.push(48 + ((ch % 10) as u8));
        }
    }
    proof {
        assert(final(out)@ =~= old(out)@ + hours_bytes(minutes as int));
    }
}

/// The digits of a number with a comma between each group of three, counted
/// from the right.
pub open spec fn with_thousands(s: Seq<u8>) -> Seq<u8>
    decreases s.len(),
{
    if s.len() <= 3 {
        s
    } else {
        with_thousands(s.take(s.len() - 3)) + seq![44u8] + s.skip(s.len() - 3)
    }
}

/// Relies on separator's `Separatable` for `u64`: the decimal digits of the
/// number with a comma between each group of three, counted from the right.
#[verifier::external_body]
fn separated_u64(n: u64) -> (r: Vec<u8>)
    ensures
        r@ == with_thousands(dec_bytes(n as int)),
{
    separator::Separatable::separated_string(&n).into_bytes()
}

/// Grouping digits keeps them ASCII: only commas are added.
pub proof fn lemma_with_thousands_ascii(s: Seq<u8>)
    requires
        all_ascii(s),
    ensures
        all_ascii(with_thousands(s)),
    decreases s.len(),
{
    if s.len() > 3 {
        assert(all_ascii(s.take(s.len() - 3)));
        lemma_with_thousands_ascii(s.take(s.len() - 3));
        let r = with_thousands(s);
        let head = with_thousands(s.take(s.len() - 3));
        assert forall|i: int| 0 <= i < r.len() implies r[i] < 128 by {
            if i < head.len() {
                assert(r[i] == head[i]);
            } else if i == head.len() {
                assert(r[i] == 44u8);
            } else {
                assert(r[i] == s.skip(s.len() - 3)[i - head.len() - 1]);
            }
        }
    }
}

/// The text of a pay amount given in cents: thousands-separated dollars, a
/// point, and two cent digits.
pub open spec fn pay_bytes(cents: int) -> Seq<u8> {
    with_thousands(dec_bytes(cents / 100)) + seq![
        46u8,
        (48 + (cents / 10) % 10) as u8,
        (48 + cents % 10) as u8,
    ]
}

/// Append the text of a pay amount given in cents.
pub fn push_pay_cents(out: &mut Vec<u8>, cents: u64)
    ensures
        final(out)@ == old(out)@ + pay_bytes(cents as int),
        all_ascii(old(out)@) ==> all_ascii(final(out)@),
{
    proof {
        lemma_dec_bytes_ascii((cents / 100) as int);
        lemma_with_thousands_ascii(dec_bytes((cents / 100) as int));
    }
    let dollars = separated_u64(cents / 100);
    let mut i: usize = 0;
    while i < dollars.len()
        invariant
            i <= dollars@.len(),
            dollars@ == with_thousands(dec_bytes((cents / 100) as int)),
            out@ == old(out)@ + dollars@.take(i as int),
        decreases dollars@.len() - i,
    {
        let b = dollars[i];
        out.push(b);
        proof {
            assert(out@ =~= old(out)@ + dollars@.take(i + 1 as int));
        }
        i = i + 1;
    }
    proof {
        assert(dollars@.take(dollars@.len() as int) =~= dollars@);
    }
    out.push(46);
    out.push(48 + ((cents / 10 % 10) as u8));
    out.push(48 + ((cents % 10) as u8));
    proof {
        assert(final(out)@ =~= old(out)@ + pay_bytes(cents as int));
    }
}

} // verus!

verus! {

/// Two zero-padded decimal digits.
pub open spec fn two_digits(n: int) -> Seq<u8> {
    seq![(48 + (n / 10) % 10) as u8, (48 + n % 10) as u8]
}

/// Append two zero-padded decimal digits.
pub fn push_two_digits(out: &mut Vec<u8>, n: u64)
    requires
        n < 100,
    ensures
        final(out)@ == old(out)@ + two_digits(n as int),
        all_ascii(old(out)@) ==> all_ascii(final(out)@),
{
    out.push(48 + ((n / 10 % 10) as u8));
    out.push(48 + ((n % 10) as u8));
    proof {
        assert(final(out)@ =~= old(out)@ + two_digits(n as int));
    }
}

/// The text of an instant: its date, a space, and its zero-padded clock
/// time.
pub open spec fn date_time_bytes(dt: DateTime) -> Seq<u8> {
    let t = spec_ymd_of(dt.spec_day_index());
    dec_bytes(t.0) + seq![45u8] + two_digits(t.1) + seq![45u8] + two_digits(t.2) + seq![32u8]
        + two_digits(dt.spec_minute_of_day() / 60) + seq![58u8] + two_digits(
        dt.spec_minute_of_day() % 60,
    )
}

/// Append the text of an instant.
pub fn push_date_time(out: &mut Vec<u8>, dt: &DateTime)
    requires
        dt.well_formed(),
    ensures
        final(out)@ == old(out)@ + date_time_bytes(*dt),
        all_ascii(old(out)@) ==> all_ascii(final(out)@),
{
    let (y, m, d) = dt.ymd();
    push_dec(out, y);
    out.push(45u8);
    push_two_digits(out, m);
    out.push(45u8);
    push_two_digits(out, d);
    out.push(32u8);
    push_two_digits(out, dt.hour());
    out.push(58u8);
    push_two_digits(out, dt.minute());
    proof {
        assert(final(out)@ =~= old(out)@ + date_time_bytes(*dt));
    }
}

} // verus!

verus! {

/// The bytes of the textual hours bar: for a span strictly between zero and
/// a full day, a space, one `+` per whole hour, and a trailing `+` where the
/// fraction exceeds half an hour or `-` where it exceeds a quarter; empty
/// otherwise.
pub open spec fn hours_bar_bytes(minutes: int) -> Seq<u8> {
    if 0 < minutes < 1440 {
        seq![32u8] + Seq::new((minutes / 60) as nat, |i: int| 43u8) + (if minutes % 60 > 30 {
            seq![43u8]
        } else if minutes % 60 > 15 {
            seq![45u8]
        } else {
            Seq::<u8>::empty()
        })
    } else {
        Seq::empty()
    }
}

/// Append the textual hours bar of a span given in minutes.
pub fn push_hours_bar(out: &mut Vec<u8>, minutes: u64)
    ensures
        final(out)@ == old(out)@ + hours_bar_bytes(minutes as int),
        all_ascii(old(out)@) ==> all_ascii(final(out)@),
{
    if 0 < minutes && minutes < 1440 {
        out.push(32u8);
        let whole = minutes / 60;
        let mut i: u64 = 0;
        while i < whole
            invariant
                i <= whole < 24,
                out@ == old(out)@ + seq![32u8] + Seq::new(i as nat, |k: int| 43u8),
            decreases whole - i,
        {
            out.push(43u8);
            proof {
                assert(out@ =~= old(out)@ + seq![32u8] + Seq::new((i + 1) as nat, |k: int| 43u8));
            }
            i = i + 1;
        }
        if minutes % 60 > 30 {
            out.push(43u8);
        } else if minutes % 60 > 15 {
            out.push(45u8);
        }
        proof {
            assert(final(out)@ =~= old(out)@ + hours_bar_bytes(minutes as int));
        }
    } else {
        proof {
            assert(final(out)@ =~= old(out)@ + hours_bar_bytes(minutes as int));
        }
    }
}

/// The textual hours bar of a span given in minutes, as text.
pub fn hours_bar(minutes: u64) -> (r: String)
    ensures
        r@ == ascii_chars_of(hours_bar_bytes(minutes as int)),
{
    let mut out: Vec<u8> = Vec::new();
    proof {
        assert(all_ascii(out@));
    }
    push_hours_bar(&mut out, minutes);
    string_from_ascii(out)
}

} // verus!

verus! {

/// A text with every line after the first indented: each newline is
/// followed by the given number of spaces.
pub open spec fn indented_chars(s: Seq<char>, indent: int) -> Seq<char>
    decreases s.len(),
{
    if s.len() == 0 {
        Seq::empty()
    } else if s.last() == '\n' {
        indented_chars(s.drop_last(), indent) + seq!['\n'] + Seq::new(
            if indent >= 0 {
                indent as nat
            } else {
                0
            },
            |i: int| ' ',
        )
    } else {
        indented_chars(s.drop_last(), indent).push(s.last())
    }
}

/// Append a message with its continuation lines indented by the given
/// number of spaces; the first line is not indented, and every line's own
/// text is kept exactly.
pub fn append_message(out: &mut String, text: &str, indent: usize)
    ensures
        final(out)@ == old(out)@ + indented_chars(text@, indent as int),
{
    proof {
        reveal_strlit("\n");
        reveal_strlit(" ");
    }
    let n = text.unicode_len();
    let mut seg_start: usize = 0;
    let mut i: usize = 0;
    while i < n
        invariant
            seg_start <= i <= n,
            n == text@.len(),
            out@ + text@.subrange(seg_start as int, i as int) == old(out)@ + indented_chars(
                text@.take(i as int),
                indent as int,
            ),
        decreases n - i,
    {
        proof {
            reveal_strlit("\n");
            reveal_strlit(" ");
            assert(("\n")@ =~= seq!['\n']);
            assert((" ")@ =~= seq![' ']);
            assert(text@.take(i + 1 as int).drop_last() =~= text@.take(i as int));
            assert(text@.take(i + 1 as int).last() == text@[i as int]);
        }
        if text.get_char(i) == '\n' {
            let piece = text.substring_char(seg_start, i);
            out.append(piece);
            out.append("\n");
            proof {
                reveal_strlit("\n");
                assert(("\n")@ =~= seq!['\n']);
                assert(out@ =~= old(out)@ + indented_chars(text@.take(i as int), indent as int)
                    + seq!['\n']);
            }
            let mut p: usize = 0;
            while p < indent
                invariant
                    p <= indent,
                    out@ == old(out)@ + indented_chars(text@.take(i as int), indent as int)
                        + seq!['\n'] + Seq::new(p as nat, |k: int| ' '),
                decreases indent - p,
            {
                out.append(" ");
                proof {
                    reveal_strlit(" ");
                    assert((" ")@ =~= seq![' ']);
                    assert(out@ =~= old(out)@ + indented_chars(text@.take(i as int), indent as int)
                        + seq!['\n'] + Seq::new((p + 1) as nat, |k: int| ' '));
                }
                p = p + 1;
            }
            seg_start = i + 1;
            proof {
                assert(text@.subrange(seg_start as int, i + 1 as int)
                    =~= Seq::<char>::empty());
                assert(out@ + text@.subrange(seg_start as int, i + 1 as int) =~= old(out)@
                    + indented_chars(text@.take(i + 1 as int), indent as int));
            }
        } else {
            proof {
                assert(text@.subrange(seg_start as int, i + 1 as int) =~= text@.subrange(
                    seg_start as int,
                    i as int,
                ).push(text@[i as int]));
                assert(indented_chars(text@.take(i + 1 as int), indent as int) == indented_chars(
                    text@.take(i as int),
                    indent as int,
                ).push(text@[i as int]));
                assert((out@ + text@.subrange(seg_start as int, i as int)).push(text@[i as int])
                    =~= out@ + text@.subrange(seg_start as int, i as int).push(text@[i as int]));
                assert((old(out)@ + indented_chars(text@.take(i as int), indent as int)).push(
                    text@[i as int],
                ) =~= old(out)@ + indented_chars(text@.take(i as int), indent as int).push(
                    text@[i as int],
                ));
                assert(out@ + text@.subrange(seg_start as int, i + 1 as int) =~= old(out)@
                    + indented_chars(text@.take(i + 1 as int), indent as int));
            }
        }
        i = i + 1;
    }
    let last_piece = text.substring_char(seg_start, n);
    out.append(last_piece);
    proof {
        assert(text@.take(n as int) =~= text@);
        assert(out@ =~= old(out)@ + indented_chars(text@, indent as int));
    }
}

/// A message with its continuation lines indented, as text; a pure function
/// of the message and the indent.
pub fn message(text: &str, indent: usize) -> (r: String)
    ensures
        r@ == indented_chars(text@, indent as int),
{
    let mut out = String::new();
    append_message(&mut out, text, indent);
    out
}

/// Append the characters of an ASCII byte sequence.
pub fn append_ascii(out: &mut String, bytes: Vec<u8>)
    requires
        all_ascii(bytes@),
    ensures
        final(out)@ == old(out)@ + ascii_chars_of(bytes@),
{
    let piece = string_from_ascii(bytes);
    out.append(piece.as_str());
}

/// Append the decimal digits of a number, as text.
pub fn append_dec(out: &mut String, n: u64)
    ensures
        final(out)@ == old(out)@ + ascii_chars_of(dec_bytes(n as int)),
{
    let mut digits: Vec<u8> = Vec::new();
    push_dec(&mut digits, n);
    proof {
        assert(all_ascii(Seq::<u8>::empty()));
        assert(digits@ =~= dec_bytes(n as int));
    }
    append_ascii(out, digits);
}

/// Append the text of an instant.
pub fn append_date_time(out: &mut String, dt: &DateTime)
    requires
        dt.well_formed(),
    ensures
        final(out)@ == old(out)@ + ascii_chars_of(date_time_bytes(*dt)),
{
    let mut bytes: Vec<u8> = Vec::new();
    proof {
        assert(all_ascii(Seq::<u8>::empty()));
    }
    push_date_time(&mut bytes, dt);
    proof {
        assert(bytes@ =~= date_time_bytes(*dt));
        lemma_date_time_bytes_ascii(*dt);
    }
    append_ascii(out, bytes);
}

/// The bytes of an instant's text are ASCII.
pub proof fn lemma_date_time_bytes_ascii(dt: DateTime)
    ensures
        all_ascii(date_time_bytes(dt)),
{
    lemma_dec_bytes_ascii(spec_ymd_of(dt.spec_day_index()).0);
    assert forall|i: int| 0 <= i < date_time_bytes(dt).len() implies date_time_bytes(dt)[i]
        < 128 by {
        let t = spec_ymd_of(dt.spec_day_index());
        let y = dec_bytes(t.0);
        if i < y.len() {
            assert(date_time_bytes(dt)[i] == y[i]);
        }
    }
}

} // verus!
