//! What holds of the texts that stand for values as the keys of a map.

use vstd::arithmetic::power::{lemma_pow0, lemma_pow1, lemma_pow_adds, pow};
use vstd::prelude::*;

use crate::bytes::{be_nat, twos, Cell};
use crate::calendar::{
    clock, date_text, datetime_text, fraction_text, law_every_day_has_a_date, time_text, valid_date,
    valid_time, year_text, CivilDate, CivilTime,
};
use crate::collections::law_entries_one_for_one;
use crate::meta::TypeView;
use crate::model::{
    decode_of, entries_of, entry_of, fields_of, key_of, key_text, law_fields_are_those_set,
    law_last_setting_wins, Datum, Outcome,
};
use crate::text::{decimal, dotted_text, hex_digit, hex_text, hyphenated_text, int_text, padded};

verus! {

/// Whether `c` is a decimal digit.
spec fn is_digit(c: char) -> bool {
    48 <= c as int <= 57
}

/// The number that decimal digits write.
spec fn number(text: Seq<char>) -> int
    decreases text.len(),
{
    if text.len() == 0 {
        0
    } else {
        number(text.drop_last()) * 10 + (text.last() as int - 48)
    }
}

/// A number in decimal is at least one digit, all of it is digits, and they write the number.
proof fn lemma_decimal(n: nat)
    ensures
        decimal(n).len() >= 1,
        forall|i: int| 0 <= i < decimal(n).len() ==> is_digit(#[trigger] decimal(n)[i]),
        number(decimal(n)) == n,
    decreases n,
{
    reveal_with_fuel(number, 2);
    if n < 10 {
        assert(decimal(n).drop_last() =~= Seq::<char>::empty());
    } else {
        lemma_decimal(n / 10);
        assert(decimal(n).drop_last() =~= decimal(n / 10));
    }
}

/// A number with leading zeros has as many characters as it is to have, all of it is digits, and
/// they write the number where it has no more digits than that.
proof fn lemma_padded(n: nat, width: nat)
    ensures
        padded(n, width).len() == width,
        forall|i: int| 0 <= i < width ==> is_digit(#[trigger] padded(n, width)[i]),
        n < pow(10, width) ==> number(padded(n, width)) == n,
    decreases width,
{
    if width == 0 {
        lemma_pow0(10);
    } else {
        lemma_padded(n / 10, (width - 1) as nat);
        assert(padded(n, width).drop_last() =~= padded(n / 10, (width - 1) as nat));
        lemma_pow1(10);
        lemma_pow_adds(10, 1, (width - 1) as nat);
    }
}

/// What two to nine digits hold.
proof fn lemma_powers_of_ten()
    ensures
        pow(10, 2) == 100,
        pow(10, 3) == 1_000,
        pow(10, 4) == 10_000,
        pow(10, 6) == 1_000_000,
        pow(10, 9) == 1_000_000_000,
{
    reveal_with_fuel(pow, 10);
}

/// Where two texts are each cut at the first of a character, equal texts have equal parts.
proof fn lemma_cut(a: Seq<char>, x: Seq<char>, b: Seq<char>, y: Seq<char>, c: char)
    requires
        a + seq![c] + x == b + seq![c] + y,
        forall|i: int| 0 <= i < a.len() ==> #[trigger] a[i] != c,
        forall|i: int| 0 <= i < b.len() ==> #[trigger] b[i] != c,
    ensures
        a == b,
        x == y,
{
    let s = a + seq![c] + x;
    let t = b + seq![c] + y;
    if a.len() < b.len() {
        assert(s[a.len() as int] == c);
        assert(t[a.len() as int] == b[a.len() as int]);
    }
    if b.len() < a.len() {
        assert(t[b.len() as int] == c);
        assert(s[b.len() as int] == a[b.len() as int]);
    }
    assert(a =~= s.take(a.len() as int));
    assert(b =~= t.take(b.len() as int));
    assert(x =~= s.skip(a.len() as int + 1));
    assert(y =~= t.skip(b.len() as int + 1));
}

/// Two whole numbers that are written alike are the same.
pub proof fn law_numbers_written_apart(a: int, b: int)
    requires
        int_text(a) == int_text(b),
    ensures
        a == b,
{
    let m: nat = (if a < 0 { -a } else { a }) as nat;
    let n: nat = (if b < 0 { -b } else { b }) as nat;
    lemma_decimal(m);
    lemma_decimal(n);
    if a < 0 {
        assert(int_text(a)[0] == '-');
        assert(int_text(a).skip(1) =~= decimal(m));
    } else {
        assert(is_digit(int_text(a)[0]));
    }
    if b < 0 {
        assert(int_text(b)[0] == '-');
        assert(int_text(b).skip(1) =~= decimal(n));
    } else {
        assert(is_digit(int_text(b)[0]));
    }
}

/// Bytes in hexadecimal are twice as many characters.
pub proof fn law_hex_length(bytes: Seq<u8>, ten: char)
    ensures
        hex_text(bytes, ten).len() == 2 * bytes.len(),
{
}

/// Bytes that are written alike in hexadecimal are the same, in upper case and in lower case.
pub proof fn law_hex_written_apart(a: Seq<u8>, b: Seq<u8>, ten: char)
    requires
        ten == 'A' || ten == 'a',
        hex_text(a, ten) == hex_text(b, ten),
    ensures
        a == b,
{
    let s = hex_text(a, ten);
    let t = hex_text(b, ten);
    assert(s.len() == 2 * a.len() && t.len() == 2 * b.len());
    assert forall|i: int| 0 <= i < a.len() implies a[i] == b[i] by {
        assert(s[2 * i] == hex_digit(a[i] as int / 16, ten));
        assert(t[2 * i] == hex_digit(b[i] as int / 16, ten));
        assert(s[2 * i + 1] == hex_digit(a[i] as int % 16, ten));
        assert(t[2 * i + 1] == hex_digit(b[i] as int % 16, ten));
        lemma_hex_digit(a[i] as int / 16, b[i] as int / 16, ten);
        lemma_hex_digit(a[i] as int % 16, b[i] as int % 16, ten);
    }
    assert(a =~= b);
}

/// No hexadecimal digit stands for two numbers, and none is a hyphen.
proof fn lemma_hex_digit(m: int, n: int, ten: char)
    requires
        ten == 'A' || ten == 'a',
        0 <= m < 16,
        0 <= n < 16,
    ensures
        hex_digit(m, ten) == hex_digit(n, ten) ==> m == n,
        hex_digit(m, ten) != '-',
{
}

/// A hyphenated identifier is thirty-six characters, with hyphens in four places and nowhere else.
pub proof fn law_hyphens_in_their_places(bytes: Seq<u8>)
    requires
        bytes.len() == 16,
    ensures
        hyphenated_text(bytes).len() == 36,
        forall|i: int|
            0 <= i < 36 ==> (#[trigger] hyphenated_text(bytes)[i] == '-' <==> i == 8 || i == 13 || i
                == 18 || i == 23),
{
    let hex = hex_text(bytes, 'a');
    let text = hyphenated_text(bytes);
    assert forall|i: int| 0 <= i < 32 implies #[trigger] hex[i] != '-' by {
        lemma_hex_digit(bytes[i / 2] as int / 16, 0, 'a');
        lemma_hex_digit(bytes[i / 2] as int % 16, 0, 'a');
    }
    assert forall|i: int| 0 <= i < 36 implies (#[trigger] text[i] == '-' <==> i == 8 || i == 13 || i
        == 18 || i == 23) by {
        if i < 8 {
            assert(text[i] == hex[i]);
        } else if 8 < i < 13 {
            assert(text[i] == hex[i - 1]);
        } else if 13 < i < 18 {
            assert(text[i] == hex[i - 2]);
        } else if 18 < i < 23 {
            assert(text[i] == hex[i - 3]);
        } else if 23 < i {
            assert(text[i] == hex[i - 4]);
        }
    }
}

/// Identifiers that are written alike are the same.
pub proof fn law_identifiers_written_apart(a: Seq<u8>, b: Seq<u8>)
    requires
        a.len() == 16,
        b.len() == 16,
        hyphenated_text(a) == hyphenated_text(b),
    ensures
        a == b,
{
    lemma_hyphens_taken_out(a);
    lemma_hyphens_taken_out(b);
    law_hex_written_apart(a, b, 'a');
}

/// Without its hyphens, a hyphenated identifier is plain hexadecimal.
proof fn lemma_hyphens_taken_out(bytes: Seq<u8>)
    requires
        bytes.len() == 16,
    ensures
        ({
            let text = hyphenated_text(bytes);
            text.subrange(0, 8) + text.subrange(9, 13) + text.subrange(14, 18) + text.subrange(
                19,
                23,
            ) + text.subrange(24, 36)
        }) == hex_text(bytes, 'a'),
{
    let text = hyphenated_text(bytes);
    let hex = hex_text(bytes, 'a');
    assert(text.len() == 36);
    assert(text.subrange(0, 8) =~= hex.subrange(0, 8));
    assert(text.subrange(9, 13) =~= hex.subrange(8, 12));
    assert(text.subrange(14, 18) =~= hex.subrange(12, 16));
    assert(text.subrange(19, 23) =~= hex.subrange(16, 20));
    assert(text.subrange(24, 36) =~= hex.subrange(20, 32));
    assert(hex.subrange(0, 8) + hex.subrange(8, 12) + hex.subrange(12, 16) + hex.subrange(16, 20)
        + hex.subrange(20, 32) =~= hex);
}

/// Addresses of four octets that are written alike are the same.
pub proof fn law_addresses_written_apart(a: Seq<u8>, b: Seq<u8>)
    requires
        a.len() == 4,
        b.len() == 4,
        dotted_text(a) == dotted_text(b),
    ensures
        a == b,
{
    let dot = seq!['.'];
    let (a0, a1, a2, a3) = (
        decimal(a[0] as nat),
        decimal(a[1] as nat),
        decimal(a[2] as nat),
        decimal(a[3] as nat),
    );
    let (b0, b1, b2, b3) = (
        decimal(b[0] as nat),
        decimal(b[1] as nat),
        decimal(b[2] as nat),
        decimal(b[3] as nat),
    );
    lemma_decimal(a[0] as nat);
    lemma_decimal(a[1] as nat);
    lemma_decimal(a[2] as nat);
    lemma_decimal(a[3] as nat);
    lemma_decimal(b[0] as nat);
    lemma_decimal(b[1] as nat);
    lemma_decimal(b[2] as nat);
    lemma_decimal(b[3] as nat);
    assert(dotted_text(a) =~= a0 + dot + (a1 + dot + (a2 + dot + a3)));
    assert(dotted_text(b) =~= b0 + dot + (b1 + dot + (b2 + dot + b3)));
    lemma_cut(a0, a1 + dot + (a2 + dot + a3), b0, b1 + dot + (b2 + dot + b3), '.');
    lemma_cut(a1, a2 + dot + a3, b1, b2 + dot + b3, '.');
    lemma_cut(a2, a3, b2, b3, '.');
    assert(a =~= b);
}

/// Years that are written alike are the same.
proof fn lemma_years_written_apart(a: int, b: int)
    requires
        year_text(a) == year_text(b),
    ensures
        a == b,
{
    lemma_year_text(a);
    lemma_year_text(b);
}

/// What is in the text of a year: a sign outside the years from 0 to 9999, and the digits of the
/// number without its sign.
proof fn lemma_year_text(year: int)
    ensures
        year_text(year).len() >= 1,
        year_text(year)[0] == '+' <==> year > 9999,
        year_text(year)[0] == '-' <==> year < 0,
        0 <= year <= 9999 ==> number(year_text(year)) == year,
        year > 9999 ==> number(year_text(year).skip(1)) == year,
        year < 0 ==> number(year_text(year).skip(1)) == -year,
        forall|i: int| 0 <= i < year_text(year).len() ==> #[trigger] year_text(year)[i] != ' ',
{
    let n: nat = (if year < 0 { -year } else { year }) as nat;
    lemma_powers_of_ten();
    lemma_decimal(n);
    lemma_padded(n, 4);
    let text = year_text(year);
    if 0 <= year <= 9999 {
        assert(text == padded(n, 4));
        assert(is_digit(padded(n, 4)[0]));
        assert forall|i: int| 0 <= i < text.len() implies #[trigger] text[i] != ' ' by {
            assert(is_digit(padded(n, 4)[i]));
        }
    } else {
        let digits = text.skip(1);
        if year < -9999 || year > 9999 {
            assert(digits =~= decimal(n));
        } else {
            assert(digits =~= padded(n, 4));
        }
        assert forall|i: int| 0 <= i < text.len() implies #[trigger] text[i] != ' ' by {
            if i > 0 {
                assert(text[i] == digits[i - 1]);
                assert(is_digit(digits[i - 1]));
            }
        }
    }
}

/// Dates that are written alike are the same.
pub proof fn law_dates_written_apart(a: CivilDate, b: CivilDate)
    requires
        valid_date(a),
        valid_date(b),
        date_text(a) == date_text(b),
    ensures
        a == b,
{
    lemma_date_text(a);
    lemma_date_text(b);
    let s = date_text(a);
    let n = s.len();
    assert(s.take(n - 6) == year_text(a.year));
    assert(s.take(n - 6) == year_text(b.year));
    lemma_years_written_apart(a.year, b.year);
}

/// The parts of the text of a date.
proof fn lemma_date_text(date: CivilDate)
    requires
        valid_date(date),
    ensures
        ({
            let text = date_text(date);
            let n = text.len();
            &&& n >= 7
            &&& text.take(n - 6) == year_text(date.year)
            &&& number(text.subrange(n - 5, n - 3)) == date.month
            &&& number(text.subrange(n - 2, n as int)) == date.day
            &&& forall|i: int| 0 <= i < n ==> #[trigger] text[i] != ' '
        }),
{
    lemma_year_text(date.year);
    lemma_powers_of_ten();
    lemma_padded(date.month as nat, 2);
    lemma_padded(date.day as nat, 2);
    let year = year_text(date.year);
    let month = padded(date.month as nat, 2);
    let day = padded(date.day as nat, 2);
    let text = date_text(date);
    let n = text.len();
    assert(text =~= year + seq!['-'] + month + seq!['-'] + day);
    assert(n == year.len() + 6);
    assert(text.take(n - 6) =~= year);
    assert(text.subrange(n - 5, n - 3) =~= month);
    assert(text.subrange(n - 2, n as int) =~= day);
    assert forall|i: int| 0 <= i < n implies #[trigger] text[i] != ' ' by {
        if i < n - 6 {
            assert(text[i] == year[i]);
        } else if n - 6 < i < n - 3 {
            assert(text[i] == month[i - (n - 5)]);
            assert(is_digit(month[i - (n - 5)]));
        } else if n - 3 < i {
            assert(text[i] == day[i - (n - 2)]);
            assert(is_digit(day[i - (n - 2)]));
        }
    }
}

/// The length of the fraction tells in which unit it is, and its digits how many there are.
proof fn lemma_fraction_text(nanos: nat)
    requires
        nanos < 1_000_000_000,
    ensures
        ({
            let text = fraction_text(nanos);
            let count = number(text.skip(1));
            ||| text.len() == 0 && nanos == 0
            ||| text.len() == 4 && nanos == count * 1_000_000
            ||| text.len() == 7 && nanos == count * 1_000
            ||| text.len() == 10 && nanos == count
        }),
{
    lemma_powers_of_ten();
    lemma_padded(nanos / 1_000_000, 3);
    lemma_padded(nanos / 1_000, 6);
    lemma_padded(nanos, 9);
    let text = fraction_text(nanos);
    if nanos == 0 {
    } else if nanos % 1_000_000 == 0 {
        assert(text.skip(1) =~= padded(nanos / 1_000_000, 3));
    } else if nanos % 1_000 == 0 {
        assert(text.skip(1) =~= padded(nanos / 1_000, 6));
    } else {
        assert(text.skip(1) =~= padded(nanos, 9));
    }
}

/// Times of day that are written alike are the same.
pub proof fn law_times_written_apart(a: CivilTime, b: CivilTime)
    requires
        valid_time(a),
        valid_time(b),
        time_text(a) == time_text(b),
    ensures
        a == b,
{
    lemma_time_text(a);
    lemma_time_text(b);
    lemma_fraction_text(a.nanosecond as nat);
    lemma_fraction_text(b.nanosecond as nat);
}

/// The parts of the text of a time of day.
proof fn lemma_time_text(time: CivilTime)
    requires
        valid_time(time),
    ensures
        ({
            let text = time_text(time);
            &&& text.len() >= 8
            &&& number(text.subrange(0, 2)) == time.hour
            &&& number(text.subrange(3, 5)) == time.minute
            &&& number(text.subrange(6, 8)) == time.second
            &&& text.skip(8) == fraction_text(time.nanosecond as nat)
        }),
{
    lemma_powers_of_ten();
    lemma_padded(time.hour as nat, 2);
    lemma_padded(time.minute as nat, 2);
    lemma_padded(time.second as nat, 2);
    let text = time_text(time);
    assert(text.subrange(0, 2) =~= padded(time.hour as nat, 2));
    assert(text.subrange(3, 5) =~= padded(time.minute as nat, 2));
    assert(text.subrange(6, 8) =~= padded(time.second as nat, 2));
    assert(text.skip(8) =~= fraction_text(time.nanosecond as nat));
}

/// Instants that are written alike are the same.
pub proof fn law_instants_written_apart(
    a: CivilDate,
    at: CivilTime,
    b: CivilDate,
    bt: CivilTime,
)
    requires
        valid_date(a),
        valid_time(at),
        valid_date(b),
        valid_time(bt),
        datetime_text(a, at) == datetime_text(b, bt),
    ensures
        a == b,
        at == bt,
{
    lemma_date_text(a);
    lemma_date_text(b);
    let zone = seq![' ', 'U', 'T', 'C'];
    let (x, y) = (time_text(at) + zone, time_text(bt) + zone);
    assert(datetime_text(a, at) =~= date_text(a) + seq![' '] + x);
    assert(datetime_text(b, bt) =~= date_text(b) + seq![' '] + y);
    lemma_cut(date_text(a), x, date_text(b), y, ' ');
    assert(x.take(x.len() - 4) =~= time_text(at));
    assert(y.take(y.len() - 4) =~= time_text(bt));
    law_dates_written_apart(a, b);
    law_times_written_apart(at, bt);
}

/// Whether `d` is text, a whole number, a boolean, some bytes, an identifier, an address of four
/// octets, a date, a time of day or an instant.
pub open spec fn plain(d: Datum) -> bool {
    match d {
        Datum::Text(_) => true,
        Datum::Int(_) => true,
        Datum::Boolean(_) => true,
        Datum::Blob(_) => true,
        Datum::Uuid(bytes) => bytes.len() == 16,
        Datum::Inet(octets) => octets.len() == 4,
        Datum::Date(date) => valid_date(date),
        Datum::Time(time) => valid_time(time),
        Datum::Timestamp(date, time) => valid_date(date) && valid_time(time),
        _ => false,
    }
}

/// Whether `d` and `e` are of one kind.
pub open spec fn alike(d: Datum, e: Datum) -> bool {
    match d {
        Datum::Null => e is Null,
        Datum::Int(_) => e is Int,
        Datum::Double(_) => e is Double,
        Datum::Text(_) => e is Text,
        Datum::Blob(_) => e is Blob,
        Datum::Date(_) => e is Date,
        Datum::Time(_) => e is Time,
        Datum::Timestamp(_, _) => e is Timestamp,
        Datum::Inet(_) => e is Inet,
        Datum::Uuid(_) => e is Uuid,
        Datum::Boolean(_) => e is Boolean,
        Datum::Items(_) => e is Items,
        Datum::Fields(_) => e is Fields,
    }
}

/// Keys of one kind that are written alike are the same, but for floating-point numbers and
/// addresses of sixteen octets, whose texts are the standard library's.
pub proof fn law_keys_written_apart(d: Datum, e: Datum)
    requires
        plain(d),
        plain(e),
        alike(d, e),
        key_text(d) == key_text(e),
    ensures
        d == e,
{
    match (d, e) {
        (Datum::Int(a), Datum::Int(b)) => law_numbers_written_apart(a, b),
        (Datum::Boolean(_), Datum::Boolean(_)) => {
            reveal_strlit("true");
            reveal_strlit("false");
            assert("true"@.len() != "false"@.len());
        },
        (Datum::Blob(a), Datum::Blob(b)) => law_hex_written_apart(a, b, 'A'),
        (Datum::Uuid(a), Datum::Uuid(b)) => law_identifiers_written_apart(a, b),
        (Datum::Inet(a), Datum::Inet(b)) => law_addresses_written_apart(a, b),
        (Datum::Date(a), Datum::Date(b)) => law_dates_written_apart(a, b),
        (Datum::Time(a), Datum::Time(b)) => law_times_written_apart(a, b),
        (Datum::Timestamp(a, at), Datum::Timestamp(b, bt)) => law_instants_written_apart(
            a,
            at,
            b,
            bt,
        ),
        _ => {},
    }
}

/// Every decoded date, time of day and instant is one that there is, an identifier has sixteen bytes
/// and an address four octets or sixteen.
pub proof fn law_decoded_values_are_proper(t: TypeView, data: Cell)
    ensures
        decode_of(t, data) matches Outcome::Done(d) ==> match d {
            Datum::Uuid(bytes) => bytes.len() == 16,
            Datum::Inet(octets) => octets.len() == 4 || octets.len() == 16,
            Datum::Date(date) => valid_date(date),
            Datum::Time(time) => valid_time(time),
            Datum::Timestamp(date, time) => valid_date(date) && valid_time(time),
            _ => true,
        },
{
    match decode_of(t, data) {
        Outcome::Done(Datum::Date(date)) => {
            let days = twos(be_nat(data->Some_0), 32);
            law_every_day_has_a_date(days);
        },
        Outcome::Done(Datum::Timestamp(date, time)) => {
            let ms = twos(be_nat(data->Some_0), 64);
            law_every_day_has_a_date(ms / 86_400_000);
            assert(time == clock(ms % 86_400_000 / 1000, ms % 1000 * 1_000_000));
        },
        _ => {},
    }
}

/// Values decoded from cells of one type are of one kind, but for those that are null.
pub proof fn law_one_type_one_kind(t: TypeView, a: Cell, b: Cell)
    ensures
        decode_of(t, a) matches Outcome::Done(d) ==> decode_of(t, b) matches Outcome::Done(e) ==> d
            is Null || e is Null || alike(d, e),
{
}

/// A value has a text as a key just where it is no null, no sequence and no map.
pub proof fn law_which_values_are_keys(d: Datum)
    ensures
        key_of(d) is Done <==> !(d is Null || d is Items || d is Fields),
{
}

/// A decoded map keeps the value of every key that no later key of the same kind is equal to: keys
/// that differ are not taken for one another.
pub proof fn law_map_keeps_every_key(
    kv: (Box<TypeView>, Box<TypeView>),
    pairs: Seq<(Cell, Cell)>,
    keys: Seq<Datum>,
    i: int,
)
    requires
        entries_of(kv, pairs) is Done,
        keys.len() == pairs.len(),
        forall|j: int|
            0 <= j < pairs.len() ==> decode_of(*kv.0, (#[trigger] pairs[j]).0) == Outcome::Done(
                keys[j],
            ),
        0 <= i < pairs.len(),
        plain(keys[i]),
        forall|j: int|
            i < j < pairs.len() ==> plain(#[trigger] keys[j]) && alike(keys[i], keys[j]) && keys[j]
                != keys[i],
    ensures
        ({
            let fields = fields_of(entries_of(kv, pairs)->Done_0);
            let name = key_text(keys[i])->Some_0;
            &&& fields.contains_key(name)
            &&& decode_of(*kv.1, pairs[i].1) == Outcome::Done(fields[name])
        }),
{
    let entries = entries_of(kv, pairs)->Done_0;
    law_entries_one_for_one(kv, pairs);
    assert forall|j: int| 0 <= j < pairs.len() implies Some((#[trigger] entries[j]).0) == key_text(
        keys[j],
    ) by {
        assert(entry_of(kv, pairs[j]) == Outcome::Done(entries[j]));
    }
    assert forall|j: int| i < j < entries.len() implies (#[trigger] entries[j]).0
        != entries[i].0 by {
        assert(keys[j] != keys[i]);
        if entries[j].0 == entries[i].0 {
            law_keys_written_apart(keys[i], keys[j]);
        }
    }
    assert(entry_of(kv, pairs[i]) == Outcome::Done(entries[i]));
    law_last_setting_wins(entries, i);
    law_fields_are_those_set(entries, entries[i].0);
}

/// The character of a decimal digit.
pub open spec fn numeral(n: int) -> char {
    (0x30 + n) as char
}

/// A number with leading zeros is written digit by digit, as many as it is to have.
pub proof fn law_leading_zeros(n: nat, width: nat)
    ensures
        padded(n, 0) == Seq::<char>::empty(),
        padded(n, width + 1) == padded(n / 10, width).push(numeral(n as int % 10)),
        n < 100 ==> padded(n, 2) == seq![numeral(n as int / 10), numeral(n as int % 10)],
{
    reveal_with_fuel(padded, 3);
    assert(n < 100 ==> padded(n, 2) =~= seq![numeral(n as int / 10), numeral(n as int % 10)]);
}

/// A year from 0 to 9999 is written in four digits, a later one behind a plus sign, and an earlier one
/// behind a minus sign in at least four digits.
pub proof fn law_years_are_written(year: int)
    ensures
        0 <= year <= 9999 ==> year_text(year) == padded(year as nat, 4),
        year > 9999 ==> year_text(year) == seq!['+'] + decimal(year as nat),
        -9999 <= year < 0 ==> year_text(year) == seq!['-'] + padded((-year) as nat, 4),
        year < -9999 ==> year_text(year) == seq!['-'] + decimal((-year) as nat),
{
}

/// A date is written as its year, its month and its day, of two digits each, with hyphens between them.
pub proof fn law_dates_are_written(date: CivilDate)
    requires
        valid_date(date),
    ensures
        date_text(date) == year_text(date.year) + seq![
            '-',
            numeral(date.month / 10),
            numeral(date.month % 10),
            '-',
            numeral(date.day / 10),
            numeral(date.day % 10),
        ],
{
    law_leading_zeros(date.month as nat, 0);
    law_leading_zeros(date.day as nat, 0);
    assert(date_text(date) =~= year_text(date.year) + seq![
        '-',
        numeral(date.month / 10),
        numeral(date.month % 10),
        '-',
        numeral(date.day / 10),
        numeral(date.day % 10),
    ]);
}

/// A time of day is written as its hour, its minute and its second, of two digits each, with colons
/// between them, and its nanoseconds.
pub proof fn law_times_are_written(time: CivilTime)
    requires
        valid_time(time),
    ensures
        time_text(time) == seq![
            numeral(time.hour / 10),
            numeral(time.hour % 10),
            ':',
            numeral(time.minute / 10),
            numeral(time.minute % 10),
            ':',
            numeral(time.second / 10),
            numeral(time.second % 10),
        ] + fraction_text(time.nanosecond as nat),
{
    law_leading_zeros(time.hour as nat, 0);
    law_leading_zeros(time.minute as nat, 0);
    law_leading_zeros(time.second as nat, 0);
    assert(time_text(time) =~= seq![
        numeral(time.hour / 10),
        numeral(time.hour % 10),
        ':',
        numeral(time.minute / 10),
        numeral(time.minute % 10),
        ':',
        numeral(time.second / 10),
        numeral(time.second % 10),
    ] + fraction_text(time.nanosecond as nat));
}

/// No nanoseconds are not written, whole milliseconds in three digits, whole microseconds in six and
/// any others in nine, behind a dot.
pub proof fn law_fractions_are_written(nanos: nat)
    ensures
        nanos == 0 ==> fraction_text(nanos) == Seq::<char>::empty(),
        nanos > 0 && nanos % 1_000_000 == 0 ==> fraction_text(nanos) == seq!['.'] + padded(
            nanos / 1_000_000,
            3,
        ),
        nanos % 1_000_000 != 0 && nanos % 1_000 == 0 ==> fraction_text(nanos) == seq!['.'] + padded(
            nanos / 1_000,
            6,
        ),
        nanos % 1_000 != 0 ==> fraction_text(nanos) == seq!['.'] + padded(nanos, 9),
{
}

/// An instant is written as its date and its time of day, a space between them, and that it is in
/// Universal Time.
pub proof fn law_instants_are_written(date: CivilDate, time: CivilTime)
    ensures
        datetime_text(date, time) == date_text(date) + (seq![' '] + (time_text(time) + seq![
            ' ',
            'U',
            'T',
            'C',
        ])),
{
    assert(datetime_text(date, time) =~= date_text(date) + (seq![' '] + (time_text(time) + seq![
        ' ',
        'U',
        'T',
        'C',
    ])));
}

/// Four octets are written as decimal numbers with dots between them.
pub proof fn law_addresses_are_written(octets: Seq<u8>)
    requires
        octets.len() == 4,
    ensures
        dotted_text(octets) == decimal(octets[0] as nat) + (seq!['.'] + (decimal(octets[1] as nat) + (
        seq!['.'] + (decimal(octets[2] as nat) + (seq!['.'] + decimal(octets[3] as nat)))))),
{
    assert(dotted_text(octets) =~= decimal(octets[0] as nat) + (seq!['.'] + (decimal(
        octets[1] as nat,
    ) + (seq!['.'] + (decimal(octets[2] as nat) + (seq!['.'] + decimal(octets[3] as nat)))))));
}

/// Bytes are written in hexadecimal digits, the high half of each before its low half, in upper case and
/// in lower case.
pub proof fn law_hex_is_written(bytes: Seq<u8>, i: int)
    requires
        0 <= i < bytes.len(),
    ensures
        hex_text(bytes, 'A')[2 * i] == hexadecimal(bytes[i] as int / 16, 0x41),
        hex_text(bytes, 'A')[2 * i + 1] == hexadecimal(bytes[i] as int % 16, 0x41),
        hex_text(bytes, 'a')[2 * i] == hexadecimal(bytes[i] as int / 16, 0x61),
        hex_text(bytes, 'a')[2 * i + 1] == hexadecimal(bytes[i] as int % 16, 0x61),
{
}

/// The character of a hexadecimal digit, where `ten` is the code of the one for ten.
pub open spec fn hexadecimal(n: int, ten: int) -> char {
    if n < 10 {
        numeral(n)
    } else {
        (ten + n - 10) as char
    }
}

/// Without its hyphens, an identifier is its bytes in lower-case hexadecimal.
pub proof fn law_identifiers_are_written(bytes: Seq<u8>)
    requires
        bytes.len() == 16,
    ensures
        ({
            let text = hyphenated_text(bytes);
            text.subrange(0, 8) + text.subrange(9, 13) + text.subrange(14, 18) + text.subrange(
                19,
                23,
            ) + text.subrange(24, 36)
        }) == hex_text(bytes, 'a'),
{
    lemma_hyphens_taken_out(bytes);
}

} // verus!
