//! What each kind of column comes to, and what each kind of value is written as.

use vstd::arithmetic::div_mod::{
    lemma_fundamental_div_mod, lemma_fundamental_div_mod_converse, lemma_mod_multiples_basic,
};
use vstd::arithmetic::mul::lemma_mul_is_commutative;
use vstd::arithmetic::power2::{lemma2_to64, lemma2_to64_rest, lemma_pow2_pos, lemma_pow2_unfold, pow2};
use vstd::prelude::*;
use vstd::utf8::{decode_utf8, valid_utf8};

use crate::bytes::{
    be_int, be_nat, cell, cell_pairs, cells, next_cell, reservable, rows_of, twos, words,
};
use crate::calendar::{
    clock, date_of, date_text, datetime_text, day_in_range, day_number, law_every_day_has_a_date,
    time_text, valid_date, valid_time, CivilDate, CivilTime,
};
use crate::driver::{ascii_text, custom_text, varchar_text};
use crate::floating::{
    double_exponent, double_fraction, double_magnitude, double_sign, law_widening_keeps_the_number,
    lemma_double_of, single_exponent, single_fraction, single_magnitude, single_sign, widened,
};
use crate::laws::second_of_day;
use crate::meta::{ColType, TypeView};
use crate::model::{decode_of, key_of, key_text, Datum, Failure, Outcome};
use crate::text::{
    bool_text, dotted_text, double_text, hex_text, hyphenated_text, inet_text, int_text,
};
use crate::types::{
    entries_model, items_model, lemma_entries_model, lemma_items_model, names_distinct, ColMap, ColValue,
    DecodeError, IpAddr,
};

verus! {

/// A number in base 256 grows by one digit with each byte.
pub proof fn law_bytes_are_digits(s: Seq<u8>, b: u8)
    ensures
        be_nat(Seq::empty()) == 0,
        be_nat(s.push(b)) == be_nat(s) * 256 + b,
{
    assert(s.push(b).drop_last() =~= s);
}

/// A two's complement number of so many bits is within their reach, and differs from the unsigned
/// number by a multiple of what the bits can count.
pub proof fn law_twos_complement(n: nat, bits: nat)
    requires
        bits >= 1,
    ensures
        -pow2((bits - 1) as nat) <= twos(n, bits) < pow2((bits - 1) as nat),
        (twos(n, bits) - n) % (pow2(bits) as int) == 0,
{
    let m = pow2(bits) as int;
    lemma_pow2_pos(bits);
    lemma_pow2_unfold(bits);
    lemma_fundamental_div_mod(n as int, m);
    let low = n as int % m;
    let q = n as int / m;
    lemma_mul_is_commutative(m, q);
    assert(low - n == (-q) * m) by (nonlinear_arith)
        requires
            n == m * q + low,
    ;
    assert(low - m - n == (-q - 1) * m) by (nonlinear_arith)
        requires
            n == m * q + low,
    ;
    lemma_mod_multiples_basic(-q, m);
    lemma_mod_multiples_basic(-q - 1, m);
}

/// The first four bytes are read as a two's complement number.
pub proof fn law_ints_are_four_bytes(s: Seq<u8>)
    ensures
        i32::MIN <= be_int(s) <= i32::MAX,
        (be_int(s) - be_nat(s.take(4))) % 0x1_0000_0000 == 0,
{
    lemma2_to64();
    law_twos_complement(be_nat(s.take(4)), 32);
}

/// A cell is there just where its length and its bytes are: nothing where the length is negative, and
/// else the bytes behind it. What follows starts where it ends.
pub proof fn law_cells_are_framed(s: Seq<u8>)
    ensures
        next_cell(s) is Some <==> s.len() >= 4 && (be_int(s) < 0 || s.len() >= 4 + be_int(s)),
        s.len() >= 4 && be_int(s) < 0 ==> next_cell(s) == Some((None::<Seq<u8>>, s.skip(4))),
        s.len() >= 4 && 0 <= be_int(s) <= s.len() - 4 ==> next_cell(s) == Some(
            (Some(s.subrange(4, 4 + be_int(s))), s.skip(4 + be_int(s))),
        ),
{
}

/// Room can be asked for just where all the items together take no more bytes than an object may.
pub proof fn law_room_is_bytes(n: int, size: int)
    requires
        size > 0,
    ensures
        reservable(n, size) <==> 0 <= n && n * size <= isize::MAX,
{
    let most = isize::MAX as int;
    lemma_fundamental_div_mod(most, size);
    let q = most / size;
    if 0 <= n <= q {
        assert(n * size <= q * size) by (nonlinear_arith)
            requires
                0 <= n <= q,
                size > 0,
        ;
        lemma_mul_is_commutative(size, q);
    }
    if n > q {
        assert(n * size >= (q + 1) * size) by (nonlinear_arith)
            requires
                n >= q + 1,
                size > 0,
        ;
        assert((q + 1) * size == size * q + size) by (nonlinear_arith);
    }
}

/// A machine word is as many bits as an address.
pub proof fn law_words_are_addresses(n: int)
    ensures
        8 * words(n) == n * usize::BITS,
{
}

/// Cells held as vectors stand for their bytes, one for one and in order, alone, in pairs and in rows.
pub proof fn law_cells_keep_their_bytes(
    v: Seq<Option<Vec<u8>>>,
    pairs: Seq<(Option<Vec<u8>>, Option<Vec<u8>>)>,
    rows: Seq<Vec<Option<Vec<u8>>>>,
    i: int,
)
    ensures
        cell(None) is None,
        forall|bytes: Vec<u8>| #[trigger] cell(Some(bytes)) == Some(bytes@),
        cells(v).len() == v.len(),
        0 <= i < v.len() ==> cells(v)[i] == cell(v[i]),
        cell_pairs(pairs).len() == pairs.len(),
        0 <= i < pairs.len() ==> cell_pairs(pairs)[i] == (cell(pairs[i].0), cell(pairs[i].1)),
        rows_of(rows).len() == rows.len(),
        0 <= i < rows.len() ==> rows_of(rows)[i] == cells(rows[i]@),
{
}

/// A value stands for what it holds.
pub proof fn law_values_stand_for_what_they_hold(
    n: i64,
    bits: u64,
    text: String,
    blob: crate::types::Blob,
    id: crate::types::Uuid,
    four: [u8; 4],
    sixteen: [u8; 16],
    b: bool,
)
    ensures
        ColValue::Null@ == Datum::Null,
        ColValue::Int(n)@ == Datum::Int(n as int),
        ColValue::Double(bits)@ == Datum::Double(bits),
        ColValue::String(text)@ == Datum::Text(text@),
        ColValue::Blob(blob)@ == Datum::Blob(blob.bytes@),
        ColValue::Inet(IpAddr::V4(four))@ == Datum::Inet(four@),
        ColValue::Inet(IpAddr::V6(sixteen))@ == Datum::Inet(sixteen@),
        ColValue::Uuid(id)@ == Datum::Uuid(id.uuid@),
        ColValue::Boolean(b)@ == Datum::Boolean(b),
{
}

/// Dates and times stand for themselves, a sequence for its items one for one and in order, and a map
/// for its fields.
pub proof fn law_wholes_stand_for_their_parts(
    date: crate::calendar::Date,
    time: crate::calendar::Time,
    instant: crate::calendar::DateTime,
    items: Vec<ColValue>,
    map: ColMap,
    i: int,
)
    ensures
        ColValue::Date(date)@ == Datum::Date(date@),
        ColValue::Time(time)@ == Datum::Time(time@),
        ColValue::Timestamp(instant)@ == Datum::Timestamp(instant@.0, instant@.1),
        ColValue::MapOf(map)@ == Datum::Fields(map@),
        match ColValue::SeqOf(items)@ {
            Datum::Items(model) => model.len() == items@.len() && (0 <= i < items@.len()
                ==> model[i] == items@[i]@),
            _ => false,
        },
{
    lemma_items_model(items@);
}

/// Items stand for one thing each, and so do names and values.
pub proof fn law_items_and_entries_one_for_one(
    items: Seq<ColValue>,
    entries: Seq<(String, ColValue)>,
    i: int,
)
    ensures
        items_model(items).len() == items.len(),
        0 <= i < items.len() ==> items_model(items)[i] == items[i]@,
        entries_model(entries).len() == entries.len(),
        0 <= i < entries.len() ==> entries_model(entries)[i] == (entries[i].0@, entries[i].1@),
{
    lemma_items_model(items);
    lemma_entries_model(entries);
}

/// Where no name occurs twice, two places have two names.
pub proof fn law_distinct_names_differ(entries: Seq<(String, ColValue)>)
    ensures
        names_distinct(entries) <==> forall|i: int, j: int|
            0 <= i < entries.len() && 0 <= j < entries.len() && (#[trigger] entries[i]).0@ == (
            #[trigger] entries[j]).0@ ==> i == j,
{
    if names_distinct(entries) {
        assert forall|i: int, j: int|
            0 <= i < entries.len() && 0 <= j < entries.len() && (#[trigger] entries[i]).0@ == (
            #[trigger] entries[j]).0@ implies i == j by {
            if i < j {
                assert(entries[i].0@ != entries[j].0@);
            } else if j < i {
                assert(entries[j].0@ != entries[i].0@);
            }
        }
    }
}

/// An error stands for its kind, and for its words where they are this library's own.
pub proof fn law_errors_stand_for_their_kind(e: DecodeError)
    ensures
        e is Io <==> e@ is Io,
        e is UUIDParse <==> e@ is UuidParse,
        e is FromUtf8 <==> e@ is FromUtf8,
        e is General <==> e@ is General,
        e matches DecodeError::General(message) ==> e@ == Failure::General(message@),
{
}

/// Bytes that are UTF-8 are the text they encode; any others are the text that the driver makes of
/// them. A text column never fails.
pub proof fn law_text_columns(t: TypeView, bytes: Seq<u8>)
    requires
        t.id is Varchar || t.id is Ascii || t.id is Custom,
    ensures
        valid_utf8(bytes) ==> decode_of(t, Some(bytes)) == Outcome::Done(
            Datum::Text(decode_utf8(bytes)),
        ),
        !valid_utf8(bytes) ==> decode_of(t, Some(bytes)) == Outcome::Done(
            Datum::Text(
                if t.id is Varchar {
                    varchar_text(bytes)
                } else if t.id is Ascii {
                    ascii_text(bytes)
                } else {
                    custom_text(bytes)
                },
            ),
        ),
{
}

/// How many bits of the bytes a column of whole numbers keeps.
pub open spec fn kept_bits(id: ColType, len: nat) -> nat {
    match id {
        ColType::Smallint => 16,
        ColType::Int => 32,
        ColType::Varint => 8 * len,
        _ => 64,
    }
}

/// One to eight bytes are a whole number: the one within the reach of the bits that the column keeps
/// which differs from the unsigned number by a multiple of what these can count. Any other number of
/// bytes is a fault.
pub proof fn law_number_columns(t: TypeView, bytes: Seq<u8>)
    requires
        t.id is Smallint || t.id is Int || t.id is Bigint || t.id is Counter || t.id is Varint,
    ensures
        1 <= bytes.len() <= 8 <==> decode_of(t, Some(bytes)) is Done,
        !(1 <= bytes.len() <= 8) ==> decode_of(t, Some(bytes)) is Fault,
        1 <= bytes.len() <= 8 ==> match decode_of(t, Some(bytes)) {
            Outcome::Done(Datum::Int(n)) => {
                let bits = kept_bits(t.id, bytes.len());
                &&& -pow2((bits - 1) as nat) <= n < pow2((bits - 1) as nat)
                &&& (n - be_nat(bytes)) % (pow2(bits) as int) == 0
            },
            _ => false,
        },
{
    if 1 <= bytes.len() <= 8 {
        law_twos_complement(be_nat(bytes), kept_bits(t.id, bytes.len()));
    }
}

/// A tiny number is its first byte, as a signed one; no bytes are a fault.
pub proof fn law_tiny_columns(t: TypeView, bytes: Seq<u8>)
    requires
        t.id is Tinyint,
    ensures
        bytes.len() == 0 ==> decode_of(t, Some(bytes)) is Fault,
        bytes.len() > 0 && bytes[0] < 128 ==> decode_of(t, Some(bytes)) == Outcome::Done(
            Datum::Int(bytes[0] as int),
        ),
        bytes.len() > 0 && bytes[0] >= 128 ==> decode_of(t, Some(bytes)) == Outcome::Done(
            Datum::Int(bytes[0] - 256),
        ),
{
    lemma2_to64();
}

/// The first eight bytes of a double-precision column are the bits of the number, and fewer fail. The
/// first four of a single-precision column are the bits of a number of the same sign and as far from
/// zero, and fewer fail.
pub proof fn law_floating_columns(t: TypeView, bytes: Seq<u8>)
    ensures
        t.id is Double && bytes.len() < 8 ==> decode_of(t, Some(bytes)) == Outcome::<Datum>::Failed(
            Failure::Io,
        ),
        t.id is Double && bytes.len() >= 8 ==> decode_of(t, Some(bytes)) == Outcome::Done(
            Datum::Double(be_nat(bytes.take(8)) as u64),
        ),
        t.id is Float && bytes.len() < 4 ==> decode_of(t, Some(bytes)) == Outcome::<Datum>::Failed(
            Failure::Io,
        ),
        t.id is Float && bytes.len() >= 4 ==> match decode_of(t, Some(bytes)) {
            Outcome::Done(Datum::Double(wide)) => {
                let bits = be_nat(bytes.take(4)) as u32;
                &&& double_sign(wide) == single_sign(bits)
                &&& single_exponent(bits) != 0xff ==> double_exponent(wide) != 0x7ff
                    && double_magnitude(wide) == single_magnitude(bits)
                &&& single_exponent(bits) == 0xff ==> double_exponent(wide) == 0x7ff && (
                double_fraction(wide) == 0 <==> single_fraction(bits) == 0)
            },
            _ => false,
        },
{
    law_widening_keeps_the_number(be_nat(bytes.take(4)) as u32);
}

/// The bits of a number are its sign, its exponent and its fraction, from the left.
pub proof fn law_bits_come_apart(single: u32, double: u64)
    ensures
        single == single_sign(single) * 0x8000_0000 + single_exponent(single) * 0x80_0000
            + single_fraction(single),
        0 <= single_sign(single) <= 1,
        0 <= single_exponent(single) <= 0xff,
        0 <= single_fraction(single) < 0x80_0000,
        double == double_sign(double) * 0x8000_0000_0000_0000 + double_exponent(double)
            * 0x10_0000_0000_0000 + double_fraction(double),
        0 <= double_sign(double) <= 1,
        0 <= double_exponent(double) <= 0x7ff,
        0 <= double_fraction(double) < 0x10_0000_0000_0000,
{
}

/// What is not a number keeps its fraction, with the highest bit of it set.
pub proof fn law_no_number_keeps_its_fraction(bits: u32)
    requires
        single_exponent(bits) == 0xff,
        single_fraction(bits) != 0,
    ensures
        single_fraction(bits) >= 0x40_0000 ==> double_fraction(widened(bits)) == single_fraction(
            bits,
        ) * 0x2000_0000,
        single_fraction(bits) < 0x40_0000 ==> double_fraction(widened(bits)) == (single_fraction(
            bits,
        ) + 0x40_0000) * 0x2000_0000,
{
    let fraction = single_fraction(bits);
    let quiet = if fraction < 0x40_0000 {
        fraction + 0x40_0000
    } else {
        fraction
    };
    lemma_double_of(single_sign(bits), 0x7ff, quiet * 0x2000_0000);
}

/// A truth value is whether the first byte is other than zero; no bytes fail.
pub proof fn law_boolean_columns(t: TypeView, bytes: Seq<u8>)
    requires
        t.id is Boolean,
    ensures
        bytes.len() == 0 ==> decode_of(t, Some(bytes)) == Outcome::<Datum>::Failed(Failure::Io),
        bytes.len() > 0 && bytes[0] == 0 ==> decode_of(t, Some(bytes)) == Outcome::Done(
            Datum::Boolean(false),
        ),
        bytes.len() > 0 && bytes[0] != 0 ==> decode_of(t, Some(bytes)) == Outcome::Done(
            Datum::Boolean(true),
        ),
{
}

/// Sixteen bytes are an identifier and four or sixteen an address; any other number of them fails.
/// All bytes are a blob.
pub proof fn law_byte_columns(t: TypeView, bytes: Seq<u8>)
    ensures
        (t.id is Uuid || t.id is Timeuuid) && bytes.len() == 16 ==> decode_of(t, Some(bytes))
            == Outcome::Done(Datum::Uuid(bytes)),
        (t.id is Uuid || t.id is Timeuuid) && bytes.len() != 16 ==> decode_of(t, Some(bytes))
            == Outcome::<Datum>::Failed(Failure::UuidParse),
        t.id is Inet && (bytes.len() == 4 || bytes.len() == 16) ==> decode_of(t, Some(bytes))
            == Outcome::Done(Datum::Inet(bytes)),
        t.id is Inet && bytes.len() != 4 && bytes.len() != 16 ==> decode_of(t, Some(bytes))
            == Outcome::<Datum>::Failed(Failure::Io),
        t.id is Blob ==> decode_of(t, Some(bytes)) == Outcome::Done(Datum::Blob(bytes)),
{
}

/// A decimal is a text that says so, and a column of nulls is null.
pub proof fn law_columns_without_values(t: TypeView, bytes: Seq<u8>)
    ensures
        t.id is Decimal ==> decode_of(t, Some(bytes)) == Outcome::Done(
            Datum::Text("__UNSUPPORTED TYPE__"@),
        ),
        t.id is Null ==> decode_of(t, Some(bytes)) == Outcome::Done(Datum::Null),
{
}

/// One to eight bytes are a date: the one whose day number they write in the thirty-two bits kept of
/// them. They are a fault where there is no such date, and so is any other number of bytes.
#[verifier::rlimit(40)]
pub proof fn law_date_columns(t: TypeView, bytes: Seq<u8>, days: int)
    requires
        t.id is Date,
        i32::MIN <= days <= i32::MAX,
        (days - be_nat(bytes)) % 0x1_0000_0000 == 0,
    ensures
        !(1 <= bytes.len() <= 8) ==> decode_of(t, Some(bytes)) is Fault,
        1 <= bytes.len() <= 8 ==> match decode_of(t, Some(bytes)) {
            Outcome::Done(Datum::Date(date)) => valid_date(date) && day_number(date) == days,
            Outcome::Fault => forall|date: CivilDate|
                valid_date(date) ==> #[trigger] day_number(date) != days,
            _ => false,
        },
{
    lemma2_to64();
    law_twos_complement(be_nat(bytes), 32);
    lemma_same_remainder(days, twos(be_nat(bytes), 32), be_nat(bytes) as int, 0x1_0000_0000);
    law_days_are_dates(days);
}

/// Two numbers within the reach of one another that differ from a third by multiples are the same.
proof fn lemma_same_remainder(a: int, b: int, n: int, m: int)
    requires
        m > 0,
        (a - n) % m == 0,
        (b - n) % m == 0,
        -m < a - b < m,
    ensures
        a == b,
{
    lemma_fundamental_div_mod(a - n, m);
    lemma_fundamental_div_mod(b - n, m);
    let p = (a - n) / m;
    let q = (b - n) / m;
    assert(p == q) by (nonlinear_arith)
        requires
            a - n == m * p,
            b - n == m * q,
            -m < a - b < m,
            m > 0,
    ;
}

/// A day is in range just where there is a date with that day number.
pub proof fn law_days_are_dates(days: int)
    ensures
        day_in_range(days) <==> exists|date: CivilDate|
            valid_date(date) && #[trigger] day_number(date) == days,
{
    if day_in_range(days) {
        law_every_day_has_a_date(days);
        assert(day_number(date_of(days)) == days);
    }
    if exists|date: CivilDate| valid_date(date) && #[trigger] day_number(date) == days {
        let date = choose|date: CivilDate| valid_date(date) && #[trigger] day_number(date) == days;
        crate::laws::lemma_day_number_in_range(date);
    }
}

/// One to eight bytes are a time of day: the number that they write in two's complement is that of the
/// nanoseconds since midnight. A negative one is midnight. Whole seconds that thirty-two bits do not
/// hold are left out, and from the end of the day to there is a fault, as is any other number of
/// bytes.
#[verifier::rlimit(40)]
pub proof fn law_time_columns(t: TypeView, bytes: Seq<u8>, nanos: int)
    requires
        t.id is Time,
        1 <= bytes.len() ==> {
            &&& -pow2((8 * bytes.len() - 1) as nat) <= nanos < pow2((8 * bytes.len() - 1) as nat)
            &&& (nanos - be_nat(bytes)) % (pow2(8 * bytes.len()) as int) == 0
        },
    ensures
        !(1 <= bytes.len() <= 8) ==> decode_of(t, Some(bytes)) is Fault,
        1 <= bytes.len() <= 8 ==> match decode_of(t, Some(bytes)) {
            Outcome::Done(Datum::Time(time)) => valid_time(time) && if nanos < 0 {
                second_of_day(time) == 0 && time.nanosecond == 0
            } else if nanos < 4_294_967_296_000_000_000 {
                second_of_day(time) * 1_000_000_000 + time.nanosecond == nanos
            } else {
                second_of_day(time) == 0 && time.nanosecond == nanos % 1_000_000_000
            },
            Outcome::Fault => 86_400_000_000_000 <= nanos < 4_294_967_296_000_000_000,
            _ => false,
        },
{
    if 1 <= bytes.len() <= 8 {
        let bits = 8 * bytes.len();
        law_twos_complement(be_nat(bytes), bits);
        lemma_pow2_unfold(bits);
        lemma_same_remainder(nanos, twos(be_nat(bytes), bits), be_nat(bytes) as int, pow2(
            bits,
        ) as int);
        let secs = crate::calendar::time_parts(nanos).0;
        lemma_seconds_come_apart(secs);
    }
}

/// Hours, minutes and seconds make up the seconds of the day.
pub proof fn lemma_seconds_come_apart(secs: int)
    ensures
        secs / 3600 * 3600 + secs / 60 % 60 * 60 + secs % 60 == secs,
{
    let minutes = secs / 60;
    assert(minutes / 60 == secs / 3600);
    assert(minutes / 60 * 60 + minutes % 60 == minutes);
    assert(minutes * 60 + secs % 60 == secs);
}

/// One to eight bytes are an instant: the sixty-four bits kept of what they write are the milliseconds
/// since the start of 1970. They are a fault where there is no date for it, and so is any other number
/// of bytes.
#[verifier::rlimit(40)]
pub proof fn law_timestamp_columns(t: TypeView, bytes: Seq<u8>, ms: int)
    requires
        t.id is Timestamp,
        i64::MIN <= ms <= i64::MAX,
        (ms - be_nat(bytes)) % 0x1_0000_0000_0000_0000 == 0,
    ensures
        !(1 <= bytes.len() <= 8) ==> decode_of(t, Some(bytes)) is Fault,
        1 <= bytes.len() <= 8 ==> match decode_of(t, Some(bytes)) {
            Outcome::Done(Datum::Timestamp(date, time)) => valid_date(date) && valid_time(time) && (
            day_number(date) * 86_400 + second_of_day(time)) * 1_000_000_000 + time.nanosecond == ms
                * 1_000_000,
            Outcome::Fault => forall|date: CivilDate|
                valid_date(date) ==> #[trigger] day_number(date) != ms / 86_400_000,
            _ => false,
        },
{
    lemma_bits_of_instant(be_nat(bytes), ms);
    let days = ms / 86_400_000;
    law_days_are_dates(days);
    lemma_instant_parts(ms);
    if day_in_range(days) {
        law_every_day_has_a_date(days);
        assert(1 <= bytes.len() <= 8 ==> decode_of(t, Some(bytes)) == Outcome::Done(
            Datum::Timestamp(
                date_of(days),
                clock(ms % 86_400_000 / 1000, ms % 1000 * 1_000_000),
            ),
        ));
    }
}

/// The sixty-four bits of an instant are the milliseconds that it differs from by a multiple of what
/// they can count.
proof fn lemma_bits_of_instant(n: nat, ms: int)
    requires
        i64::MIN <= ms <= i64::MAX,
        (ms - n) % 0x1_0000_0000_0000_0000 == 0,
    ensures
        twos(n, 64) == ms,
{
    lemma2_to64();
    lemma2_to64_rest();
    law_twos_complement(n, 64);
    lemma_same_remainder(ms, twos(n, 64), n as int, 0x1_0000_0000_0000_0000);
}

/// So many seconds after midnight is a time of day of that many seconds.
proof fn lemma_clock_of_day(secs: int, nanos: int)
    requires
        0 <= secs < 86_400,
        0 <= nanos < 1_000_000_000,
    ensures
        valid_time(clock(secs, nanos)),
        second_of_day(clock(secs, nanos)) == secs,
        clock(secs, nanos).nanosecond == nanos,
{
    lemma_seconds_come_apart(secs);
}

/// Milliseconds are days, seconds and what is left of them.
proof fn lemma_milliseconds_come_apart(ms: int, days: int, secs: int, millis: int)
    requires
        days == ms / 86_400_000,
        secs == ms % 86_400_000 / 1000,
        millis == ms % 1000,
    ensures
        0 <= secs < 86_400,
        0 <= millis < 1000,
        (days * 86_400 + secs) * 1000 + millis == ms,
{
    let rest = ms % 86_400_000;
    lemma_fundamental_div_mod(ms, 86_400_000);
    lemma_fundamental_div_mod(rest, 1000);
    lemma_fundamental_div_mod_converse(ms, 1000, days * 86_400 + secs, rest % 1000);
}

/// An instant is its days, its seconds of the day and its milliseconds.
proof fn lemma_instant_parts(ms: int)
    ensures
        ({
            let time = clock(ms % 86_400_000 / 1000, ms % 1000 * 1_000_000);
            &&& valid_time(time)
            &&& (ms / 86_400_000 * 86_400 + second_of_day(time)) * 1_000_000_000 + time.nanosecond
                == ms * 1_000_000
        }),
{
    let (days, secs, millis) = (ms / 86_400_000, ms % 86_400_000 / 1000, ms % 1000);
    lemma_milliseconds_come_apart(ms, days, secs, millis);
    lemma_clock_of_day(secs, millis * 1_000_000);
}

/// What each kind of value is written as where it is a key: text as it is, and the others as the
/// standard library, `chrono`, `uuid` and `itertools` write them.
pub proof fn law_keys_are_written_out(
    text: Seq<char>,
    n: int,
    bits: u64,
    date: CivilDate,
    time: CivilTime,
    bytes: Seq<u8>,
)
    ensures
        key_text(Datum::Text(text)) == Some(text),
        key_text(Datum::Int(n)) == Some(int_text(n)),
        key_text(Datum::Boolean(true)) == Some(seq!['t', 'r', 'u', 'e']),
        key_text(Datum::Boolean(false)) == Some(seq!['f', 'a', 'l', 's', 'e']),
        key_text(Datum::Double(bits)) == Some(double_text(bits)),
        key_text(Datum::Date(date)) == Some(date_text(date)),
        key_text(Datum::Time(time)) == Some(time_text(time)),
        key_text(Datum::Timestamp(date, time)) == Some(datetime_text(date, time)),
        bytes.len() == 4 ==> key_text(Datum::Inet(bytes)) == Some(dotted_text(bytes)),
        bytes.len() != 4 ==> key_text(Datum::Inet(bytes)) == Some(inet_text(bytes)),
        key_text(Datum::Uuid(bytes)) == Some(hyphenated_text(bytes)),
        key_text(Datum::Blob(bytes)) == Some(hex_text(bytes, 'A')),
{
    reveal_strlit("true");
    reveal_strlit("false");
    assert(bool_text(true) =~= seq!['t', 'r', 'u', 'e']);
    assert(bool_text(false) =~= seq!['f', 'a', 'l', 's', 'e']);
}

/// A key comes to its text, and what has none fails with the same words whatever it is.
pub proof fn law_keys_come_to_their_text(d: Datum)
    ensures
        key_text(d) is None <==> d is Null || d is Items || d is Fields,
        key_text(d) matches Some(text) ==> key_of(d) == Outcome::Done(text),
        key_text(d) is None ==> key_of(d) == Outcome::<Seq<char>>::Failed(
            Failure::General("Unexpected map key type"@),
        ),
{
}

} // verus!
