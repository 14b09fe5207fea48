//! What holds of decoding as a whole.
//!
//! Several laws speak of the bytes that a value is sent as: whole numbers in two's complement, most
//! significant byte first; text in UTF-8; a cell as its length in four bytes and then its bytes,
//! with the length minus one for an absent cell.

use vstd::arithmetic::power2::{
    lemma2_to64, lemma2_to64_rest, lemma_pow2_adds, lemma_pow2_pos, lemma_pow2_unfold, pow2,
};
use vstd::prelude::*;
use vstd::utf8::{encode_utf8, encode_utf8_decode_utf8, encode_utf8_valid_utf8, valid_utf8};

use crate::bytes::{be_nat, twos, Cell};
use crate::calendar::{
    clock, date_of, day_in_range, day_number, law_day_numbers_in_calendar_order,
    law_every_day_has_a_date, law_one_date_for_each_day, lemma_ends_of_range, time_parts, valid_date,
    valid_time, CivilDate, CivilTime, FIRST_DAY, LAST_DAY,
};
use crate::floating::widened;
use crate::meta::{ColType, TypeView};
use crate::model::{decode_of, Datum, Outcome};

verus! {

/// The low `len` bytes of `n`, most significant first.
pub open spec fn be_bytes(n: nat, len: nat) -> Seq<u8>
    decreases len,
{
    if len == 0 {
        Seq::empty()
    } else {
        be_bytes(n / 256, (len - 1) as nat).push((n % 256) as u8)
    }
}

/// Whether `n` fits in `len` bytes as a two's complement number.
pub open spec fn fits(n: int, len: nat) -> bool {
    -pow2((8 * len - 1) as nat) <= n < pow2((8 * len - 1) as nat)
}

/// A whole number as it is sent in `len` bytes.
pub open spec fn int_bytes(n: int, len: nat) -> Seq<u8> {
    be_bytes((n % pow2(8 * len) as int) as nat, len)
}

pub proof fn lemma_be_bytes(n: nat, len: nat)
    requires
        n < pow2(8 * len),
    ensures
        be_bytes(n, len).len() == len,
        be_nat(be_bytes(n, len)) == n,
    decreases len,
{
    lemma2_to64();
    if len > 0 {
        lemma_pow2_adds((8 * len - 8) as nat, 8);
        assert(n / 256 < pow2((8 * len - 8) as nat)) by (nonlinear_arith)
            requires
                n < pow2((8 * len - 8) as nat) * 256,
        ;
        lemma_be_bytes(n / 256, (len - 1) as nat);
        assert(be_bytes(n, len).drop_last() =~= be_bytes(n / 256, (len - 1) as nat));
    }
}

/// A number that fits is read back from its two's complement.
pub proof fn lemma_int_bytes(n: int, len: nat)
    requires
        len >= 1,
        fits(n, len),
    ensures
        int_bytes(n, len).len() == len,
        be_nat(int_bytes(n, len)) < pow2(8 * len),
        twos(be_nat(int_bytes(n, len)), 8 * len) == n,
{
    let whole = pow2(8 * len) as int;
    let half = pow2((8 * len - 1) as nat) as int;
    lemma_pow2_unfold(8 * len);
    lemma_pow2_pos((8 * len - 1) as nat);
    let low = n % whole;
    assert(0 <= low < whole);
    if n >= 0 {
        vstd::arithmetic::div_mod::lemma_small_mod(n as nat, whole as nat);
    } else {
        vstd::arithmetic::div_mod::lemma_mod_add_multiples_vanish(n, whole);
        vstd::arithmetic::div_mod::lemma_small_mod((n + whole) as nat, whole as nat);
    }
    assert(low == (if n >= 0 {
        n
    } else {
        n + whole
    }));
    lemma_be_bytes(low as nat, len);
    vstd::arithmetic::div_mod::lemma_small_mod(low as nat, whole as nat);
}

/// Whole numbers are read back as they were sent, whatever their length: one byte for a tiny number,
/// two for a small one, four for an ordinary one, eight for a big one and for a counter, and any
/// number from one to eight for a number of variable length.
pub proof fn law_whole_numbers_read_back(t: TypeView, n: int, len: nat)
    requires
        match t.id {
            ColType::Tinyint => len == 1,
            ColType::Smallint => len == 2,
            ColType::Int => len == 4,
            ColType::Bigint => len == 8,
            ColType::Counter => len == 8,
            ColType::Varint => 1 <= len <= 8,
            _ => false,
        },
        fits(n, len),
    ensures
        decode_of(t, Some(int_bytes(n, len))) == Outcome::Done(Datum::Int(n)),
{
    lemma_int_bytes(n, len);
    let bytes = int_bytes(n, len);
    if t.id is Tinyint {
        assert(bytes.drop_last() =~= Seq::<u8>::empty());
        reveal_with_fuel(be_nat, 2);
        assert(be_nat(bytes) == bytes[0]);
    }
}

/// A cell that is absent is null, whatever the column's type.
pub proof fn law_absent_is_null(t: TypeView)
    ensures
        decode_of(t, None) == Outcome::Done(Datum::Null),
{
}

/// Text is read back as it was sent.
pub proof fn law_text_reads_back(t: TypeView, text: Seq<char>)
    requires
        t.id is Varchar || t.id is Ascii || t.id is Custom,
    ensures
        decode_of(t, Some(encode_utf8(text))) == Outcome::Done(Datum::Text(text)),
{
    encode_utf8_valid_utf8(text);
    encode_utf8_decode_utf8(text);
}

/// The bytes of a blob, a unique identifier and an internet address are kept, and the first byte of
/// a truth value is what counts.
pub proof fn law_bytes_read_back(t: TypeView, bytes: Seq<u8>)
    ensures
        t.id is Blob ==> decode_of(t, Some(bytes)) == Outcome::Done(Datum::Blob(bytes)),
        (t.id is Uuid || t.id is Timeuuid) && bytes.len() == 16 ==> decode_of(t, Some(bytes))
            == Outcome::Done(Datum::Uuid(bytes)),
        t.id is Inet && (bytes.len() == 4 || bytes.len() == 16) ==> decode_of(t, Some(bytes))
            == Outcome::Done(Datum::Inet(bytes)),
        t.id is Boolean && bytes.len() >= 1 ==> decode_of(t, Some(bytes)) == Outcome::Done(
            Datum::Boolean(bytes[0] != 0),
        ),
{
}

/// A double-precision number is read back bit for bit.
pub proof fn law_doubles_read_back(t: TypeView, bits: u64)
    requires
        t.id is Double,
    ensures
        decode_of(t, Some(be_bytes(bits as nat, 8))) == Outcome::Done(Datum::Double(bits)),
{
    lemma2_to64();
    lemma_be_bytes(bits as nat, 8);
    let bytes = be_bytes(bits as nat, 8);
    assert(bytes.take(8) =~= bytes);
}

/// A single-precision number is read back as the double that stands for the same number.
pub proof fn law_singles_read_back_widened(t: TypeView, bits: u32)
    requires
        t.id is Float,
    ensures
        decode_of(t, Some(be_bytes(bits as nat, 4))) == Outcome::Done(Datum::Double(widened(bits))),
{
    lemma2_to64();
    lemma_be_bytes(bits as nat, 4);
    let bytes = be_bytes(bits as nat, 4);
    assert(bytes.take(4) =~= bytes);
}

/// A date is read back from its day number.
pub proof fn law_dates_read_back(t: TypeView, date: CivilDate)
    requires
        t.id is Date,
        valid_date(date),
    ensures
        decode_of(t, Some(int_bytes(day_number(date), 4))) == Outcome::Done(Datum::Date(date)),
{
    let days = day_number(date);
    lemma_day_number_in_range(date);
    lemma2_to64();
    lemma_int_bytes(days, 4);
    law_every_day_has_a_date(days);
    law_one_date_for_each_day(date, date_of(days));
}

/// The seconds from midnight to a time of day.
pub open spec fn second_of_day(time: CivilTime) -> int {
    time.hour * 3600 + time.minute * 60 + time.second
}

/// A time of day is the one so many seconds and nanoseconds after midnight.
proof fn lemma_clock(time: CivilTime)
    requires
        valid_time(time),
    ensures
        clock(second_of_day(time), time.nanosecond) == time,
        0 <= second_of_day(time) < 86_400,
{
    let secs = second_of_day(time);
    assert(secs / 60 == time.hour * 60 + time.minute);
    assert(secs / 3600 == time.hour);
}

/// Seconds and nanoseconds come apart again.
proof fn lemma_nanos_apart(secs: int, nanos: int)
    requires
        0 <= secs < 86_400,
        0 <= nanos < 1_000_000_000,
    ensures
        time_parts(secs * 1_000_000_000 + nanos) == (secs, nanos),
        fits(secs * 1_000_000_000 + nanos, 8),
{
    lemma2_to64();
    lemma2_to64_rest();
    let t = secs * 1_000_000_000 + nanos;
    assert(t / 1_000_000_000 == secs);
    assert(t % 1_000_000_000 == nanos);
}

/// Days, seconds and milliseconds come apart again.
proof fn lemma_millis_apart(days: int, secs: int, millis: int)
    requires
        day_in_range(days),
        0 <= secs < 86_400,
        0 <= millis < 1000,
    ensures
        (days * 86_400_000 + secs * 1000 + millis) / 86_400_000 == days,
        (days * 86_400_000 + secs * 1000 + millis) % 86_400_000 / 1000 == secs,
        (days * 86_400_000 + secs * 1000 + millis) % 1000 == millis,
        fits(days * 86_400_000 + secs * 1000 + millis, 8),
{
    lemma2_to64();
    lemma2_to64_rest();
    let ms = days * 86_400_000 + secs * 1000 + millis;
    assert(ms % 86_400_000 == secs * 1000 + millis);
    assert(ms % 1000 == millis) by {
        assert(ms == 1000 * (days * 86_400 + secs) + millis);
    }
}

/// A time of day is read back from its distance from midnight in nanoseconds.
pub proof fn law_times_read_back(t: TypeView, time: CivilTime)
    requires
        t.id is Time,
        valid_time(time),
    ensures
        decode_of(
            t,
            Some(int_bytes(second_of_day(time) * 1_000_000_000 + time.nanosecond, 8)),
        ) == Outcome::Done(Datum::Time(time)),
{
    let nanos = second_of_day(time) * 1_000_000_000 + time.nanosecond;
    lemma_clock(time);
    lemma_nanos_apart(second_of_day(time), time.nanosecond);
    lemma_int_bytes(nanos, 8);
}

/// An instant of whole milliseconds is read back from its distance from the start of 1970 in
/// milliseconds.
pub proof fn law_timestamps_read_back(t: TypeView, date: CivilDate, time: CivilTime)
    requires
        t.id is Timestamp,
        valid_date(date),
        valid_time(time),
        time.nanosecond % 1_000_000 == 0,
    ensures
        decode_of(
            t,
            Some(
                int_bytes(
                    day_number(date) * 86_400_000 + second_of_day(time) * 1000 + time.nanosecond
                        / 1_000_000,
                    8,
                ),
            ),
        ) == Outcome::Done(Datum::Timestamp(date, time)),
{
    let days = day_number(date);
    let millis = time.nanosecond / 1_000_000;
    let ms = days * 86_400_000 + second_of_day(time) * 1000 + millis;
    lemma_day_number_in_range(date);
    law_every_day_has_a_date(days);
    law_one_date_for_each_day(date, date_of(days));
    lemma_clock(time);
    lemma_millis_apart(days, second_of_day(time), millis);
    lemma_int_bytes(ms, 8);
}

/// The day number of a date that is kept is in range.
pub proof fn lemma_day_number_in_range(date: CivilDate)
    requires
        valid_date(date),
    ensures
        day_in_range(day_number(date)),
{
    law_every_day_has_a_date(FIRST_DAY as int);
    law_every_day_has_a_date(LAST_DAY as int);
    let first = CivilDate { year: -262_143, month: 1, day: 1 };
    let last = CivilDate { year: 262_142, month: 12, day: 31 };
    lemma_ends_of_range();
    law_day_numbers_in_calendar_order(date, first);
    law_day_numbers_in_calendar_order(last, date);
}

/// Sets are decoded as lists are, both kinds of unique identifier alike, and counters as big
/// numbers.
pub proof fn law_kinds_decoded_alike(a: TypeView, b: TypeView, data: Cell)
    requires
        a.value == b.value,
        a.id is List && b.id is SetOf || a.id is Uuid && b.id is Timeuuid || a.id is Bigint
            && b.id is Counter,
    ensures
        decode_of(a, data) == decode_of(b, data),
{
}

/// The three kinds of text decode bytes that are UTF-8 alike.
pub proof fn law_text_kinds_alike(a: TypeView, b: TypeView, bytes: Seq<u8>)
    requires
        a.id is Varchar || a.id is Ascii || a.id is Custom,
        b.id is Varchar || b.id is Ascii || b.id is Custom,
        valid_utf8(bytes),
    ensures
        decode_of(a, Some(bytes)) == decode_of(b, Some(bytes)),
{
}

/// Whether `d` is of the kind that a column of the kind `id` holds.
pub open spec fn kind_fits(id: ColType, d: Datum) -> bool {
    match id {
        ColType::Tinyint => d is Int,
        ColType::Smallint => d is Int,
        ColType::Int => d is Int,
        ColType::Bigint => d is Int,
        ColType::Varint => d is Int,
        ColType::Counter => d is Int,
        ColType::Float => d is Double,
        ColType::Double => d is Double,
        ColType::Varchar => d is Text,
        ColType::Ascii => d is Text,
        ColType::Custom => d is Text,
        ColType::Decimal => d is Text,
        ColType::Blob => d is Blob,
        ColType::Boolean => d is Boolean,
        ColType::Date => d is Date,
        ColType::Time => d is Time,
        ColType::Timestamp => d is Timestamp,
        ColType::Inet => d is Inet,
        ColType::Uuid => d is Uuid,
        ColType::Timeuuid => d is Uuid,
        ColType::List => d is Items,
        ColType::SetOf => d is Items,
        ColType::Tuple => d is Items,
        ColType::MapOf => d is Fields,
        ColType::Udt => d is Fields,
        ColType::Null => d is Null,
    }
}

/// Every value is of the kind that the column's type stands for: whole numbers of every length are
/// integers, both kinds of floating-point number are doubles, lists, sets and tuples are sequences,
/// and maps and user-defined values are maps.
pub proof fn law_kind_of_value(t: TypeView, bytes: Seq<u8>)
    ensures
        decode_of(t, Some(bytes)) matches Outcome::Done(d) ==> kind_fits(t.id, d),
{
}

} // verus!
