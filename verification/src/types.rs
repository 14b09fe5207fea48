//! Decoded values, more concise than the column types: whole numbers of every length are `i64`,
//! single-precision numbers are doubles, lists, sets and tuples are sequences, and maps and
//! user-defined values are maps from text.

use vstd::prelude::*;

use crate::calendar::{Date, DateTime, Time};
use crate::model::{
    fields_of, key_of, law_fields_are_those_set, law_last_setting_wins, Datum, Failure, Outcome,
};
use crate::text::{
    hex_text, hyphenated_text, write_double, write_hex_upper, write_hyphenated, write_inet,
    write_int,
};

verus! {

/// Why a value could not be decoded.
#[derive(Debug)]
pub enum DecodeError {
    /// The bytes were not what the driver's reader wanted.
    Io(std::io::Error),
    /// The bytes were not those of a unique identifier.
    UUIDParse(uuid::Error),
    /// The bytes were not text.
    FromUtf8(std::string::FromUtf8Error),
    /// What this library has to say itself.
    General(String),
}

impl View for DecodeError {
    type V = Failure;

    open spec fn view(&self) -> Failure {
        match self {
            DecodeError::Io(_) => Failure::Io,
            DecodeError::UUIDParse(_) => Failure::UuidParse,
            DecodeError::FromUtf8(_) => Failure::FromUtf8,
            DecodeError::General(message) => Failure::General(message@),
        }
    }
}

/// A unique identifier.
#[derive(Clone, Copy, Debug)]
pub struct Uuid {
    pub uuid: [u8; 16],
}

impl Uuid {
    /// The identifier in lower-case hexadecimal, hyphenated.
    pub fn to_hyphenated_string(&self) -> (r: String)
        ensures
            r@ == hyphenated_text(self.uuid@),
    {
        write_hyphenated(self.uuid)
    }
}

/// Some bytes.
#[derive(Debug)]
pub struct Blob {
    pub bytes: Vec<u8>,
}

impl Blob {
    /// The bytes in upper-case hexadecimal, two digits each.
    pub fn to_hex_string(&self) -> (r: String)
        ensures
            r@ == hex_text(self.bytes@, 'A'),
    {
        write_hex_upper(&self.bytes)
    }
}

/// An internet address, by its octets.
#[derive(Clone, Copy, Debug)]
pub enum IpAddr {
    V4([u8; 4]),
    V6([u8; 16]),
}

impl IpAddr {
    /// The octets of the address.
    pub open spec fn octets(self) -> Seq<u8> {
        match self {
            IpAddr::V4(octets) => octets@,
            IpAddr::V6(octets) => octets@,
        }
    }
}

/// Values by name, each name once.
#[derive(Debug)]
pub struct ColMap {
    entries: Vec<(String, ColValue)>,
}

/// A decoded value.
#[derive(Debug)]
pub enum ColValue {
    Null,
    Int(i64),
    /// A double-precision number, by its bits.
    Double(u64),
    String(String),
    Blob(Blob),
    Date(Date),
    Time(Time),
    Timestamp(DateTime),
    Inet(IpAddr),
    Uuid(Uuid),
    Boolean(bool),
    SeqOf(Vec<ColValue>),
    MapOf(ColMap),
}

/// What values stand for, one by one.
pub open spec fn items_model(items: Seq<ColValue>) -> Seq<Datum>
    decreases items,
{
    if items.len() == 0 {
        Seq::empty()
    } else {
        items_model(items.drop_last()).push(items.last().model())
    }
}

/// What names and values stand for, one by one.
pub open spec fn entries_model(entries: Seq<(String, ColValue)>) -> Seq<(Seq<char>, Datum)>
    decreases entries,
{
    if entries.len() == 0 {
        Seq::empty()
    } else {
        entries_model(entries.drop_last()).push((entries.last().0@, entries.last().1.model()))
    }
}

/// Whether no name occurs twice.
pub open spec fn names_distinct(entries: Seq<(String, ColValue)>) -> bool {
    forall|i: int, j: int|
        0 <= i < j < entries.len() ==> #[trigger] entries[i].0@ != #[trigger] entries[j].0@
}

impl ColValue {
    /// What the value stands for.
    pub open spec fn model(self) -> Datum
        decreases self,
    {
        match self {
            ColValue::Null => Datum::Null,
            ColValue::Int(n) => Datum::Int(n as int),
            ColValue::Double(bits) => Datum::Double(bits),
            ColValue::String(text) => Datum::Text(text@),
            ColValue::Blob(blob) => Datum::Blob(blob.bytes@),
            ColValue::Date(date) => Datum::Date(date@),
            ColValue::Time(time) => Datum::Time(time@),
            ColValue::Timestamp(instant) => Datum::Timestamp(instant@.0, instant@.1),
            ColValue::Inet(address) => Datum::Inet(address.octets()),
            ColValue::Uuid(id) => Datum::Uuid(id.uuid@),
            ColValue::Boolean(b) => Datum::Boolean(b),
            ColValue::SeqOf(items) => Datum::Items(items_model(items@)),
            ColValue::MapOf(map) => Datum::Fields(fields_of(entries_model(map.listed()))),
        }
    }
}

impl ColValue {
    /// The text that stands for the value as the key of a map. A null, a sequence and a map cannot
    /// be keys.
    pub fn as_map_key(self) -> (r: Result<String, DecodeError>)
        ensures
            match r {
                Ok(text) => key_of(self@) == Outcome::Done(text@),
                Err(e) => key_of(self@) == Outcome::<Seq<char>>::Failed(e@),
            },
    {
        match self {
            ColValue::String(text) => Ok(text),
            ColValue::Int(n) => Ok(write_int(n)),
            ColValue::Boolean(b) => Ok(
                if b {
                    "true".to_owned()
                } else {
                    "false".to_owned()
                },
            ),
            ColValue::Double(bits) => Ok(write_double(bits)),
            ColValue::Date(date) => Ok(date.to_text()),
            ColValue::Time(time) => Ok(time.to_text()),
            ColValue::Timestamp(instant) => Ok(instant.to_text()),
            ColValue::Inet(address) => Ok(
                match address {
                    IpAddr::V4(octets) => write_inet(octets.as_slice()),
                    IpAddr::V6(octets) => write_inet(octets.as_slice()),
                },
            ),
            ColValue::Uuid(id) => Ok(id.to_hyphenated_string()),
            ColValue::Blob(blob) => Ok(blob.to_hex_string()),
            _ => Err(DecodeError::General("Unexpected map key type".to_owned())),
        }
    }
}

impl View for ColValue {
    type V = Datum;

    open spec fn view(&self) -> Datum {
        self.model()
    }
}

impl View for ColMap {
    type V = Map<Seq<char>, Datum>;

    open spec fn view(&self) -> Map<Seq<char>, Datum> {
        fields_of(entries_model(self.listed()))
    }
}

impl ColMap {
    /// The names and values, in the order in which the names first came.
    pub closed spec fn listed(self) -> Seq<(String, ColValue)> {
        self.entries@
    }

    #[verifier::type_invariant]
    closed spec fn each_name_once(self) -> bool {
        names_distinct(self.entries@)
    }

    /// A map with nothing in it.
    pub fn new() -> (r: ColMap)
        ensures
            r@ == Map::<Seq<char>, Datum>::empty(),
    {
        ColMap { entries: Vec::new() }
    }

    /// Where `name` is in the list, if it is.
    fn find(&self, name: &String) -> (r: Option<usize>)
        ensures
            match r {
                Some(i) => i < self.listed().len() && self.listed()[i as int].0@ == name@,
                None => forall|j: int|
                    0 <= j < self.listed().len() ==> (#[trigger] self.listed()[j]).0@ != name@,
            },
    {
        let mut i: usize = 0;
        while i < self.entries.len()
            invariant
                i <= self.entries@.len(),
                forall|j: int| 0 <= j < i ==> (#[trigger] self.listed()[j]).0@ != name@,
            decreases self.entries@.len() - i,
        {
            if self.entries[i].0 == *name {
                return Some(i);
            }
            i = i + 1;
        }
        None
    }

    /// Sets `name` to `value`, in place of the value that it had, if any.
    pub fn insert(&mut self, name: String, value: ColValue)
        ensures
            final(self)@ == old(self)@.insert(name@, value@),
    {
        proof {
            use_type_invariant(&*self);
        }
        let ghost before = self.entries@;
        let place = self.find(&name);
        assert(place is None ==> forall|j: int|
            0 <= j < before.len() ==> (#[trigger] before[j]).0@ != name@) by {
            assert(self.listed() == before);
        }
        let mut entries: Vec<(String, ColValue)> = Vec::new();
        std::mem::swap(&mut entries, &mut self.entries);
        match place {
            Some(i) => {
                entries.set(i, (name, value));
                proof {
                    lemma_names_kept(before, i as int, (name, value));
                    lemma_set_entry(before, i as int, (name, value));
                }
            },
            None => {
                entries.push((name, value));
                proof {
                    assert(entries@.drop_last() =~= before);
                    assert(entries_model(entries@).drop_last() =~= entries_model(before));
                    assert forall|i: int, j: int| 0 <= i < j < entries@.len() implies (
                    #[trigger] entries@[i]).0@ != (#[trigger] entries@[j]).0@ by {
                        assert(entries@[i] == before[i]);
                        if j < before.len() {
                            assert(entries@[j] == before[j]);
                        }
                    }
                }
            },
        }
        self.entries = entries;
    }

    /// The value that `name` is set to, if any.
    pub fn get(&self, name: &String) -> (r: Option<&ColValue>)
        ensures
            match r {
                Some(value) => self@.contains_key(name@) && value@ == self@[name@],
                None => !self@.contains_key(name@),
            },
    {
        proof {
            use_type_invariant(self);
            lemma_entries_model(self.entries@);
            law_fields_are_those_set(entries_model(self.entries@), name@);
        }
        match self.find(name) {
            Some(i) => {
                proof {
                    lemma_entry_value(self.entries@, i as int);
                }
                Some(&self.entries[i].1)
            },
            None => None,
        }
    }

    /// The names and values, each name once.
    pub fn into_entries(self) -> (r: Vec<(String, ColValue)>)
        ensures
            names_distinct(r@),
            fields_of(entries_model(r@)) == self@,
    {
        proof {
            use_type_invariant(&self);
        }
        self.entries
    }
}

/// Values stand for one thing each.
pub proof fn lemma_items_model(items: Seq<ColValue>)
    ensures
        items_model(items).len() == items.len(),
        forall|i: int| 0 <= i < items.len() ==> #[trigger] items_model(items)[i] == items[i].model(),
    decreases items.len(),
{
    if items.len() > 0 {
        lemma_items_model(items.drop_last());
    }
}

/// Names and values stand for one thing each.
pub proof fn lemma_entries_model(entries: Seq<(String, ColValue)>)
    ensures
        entries_model(entries).len() == entries.len(),
        forall|i: int|
            0 <= i < entries.len() ==> #[trigger] entries_model(entries)[i] == (
                entries[i].0@,
                entries[i].1.model(),
            ),
    decreases entries.len(),
{
    if entries.len() > 0 {
        lemma_entries_model(entries.drop_last());
    }
}

/// Where each name occurs once, a field has the value beside its name.
proof fn lemma_entry_value(entries: Seq<(String, ColValue)>, i: int)
    requires
        names_distinct(entries),
        0 <= i < entries.len(),
    ensures
        fields_of(entries_model(entries)).contains_key(entries[i].0@),
        fields_of(entries_model(entries))[entries[i].0@] == entries[i].1.model(),
{
    lemma_entries_model(entries);
    let model = entries_model(entries);
    assert forall|j: int| i < j < model.len() implies (#[trigger] model[j]).0 != model[i].0 by {
        assert(entries[j].0@ != entries[i].0@);
    }
    assert(model[i].0 == entries[i].0@);
    law_fields_are_those_set(model, entries[i].0@);
    law_last_setting_wins(model, i);
}

/// Setting a name that is there already keeps the names distinct.
proof fn lemma_names_kept(entries: Seq<(String, ColValue)>, i: int, entry: (String, ColValue))
    requires
        names_distinct(entries),
        0 <= i < entries.len(),
        entries[i].0@ == entry.0@,
    ensures
        names_distinct(entries.update(i, entry)),
{
    let after = entries.update(i, entry);
    assert forall|a: int, b: int| 0 <= a < b < after.len() implies (#[trigger] after[a]).0@ != (
    #[trigger] after[b]).0@ by {
        assert(entries[a].0@ != entries[b].0@);
    }
}

/// Setting a name that is there already changes its value and nothing else.
proof fn lemma_set_entry(entries: Seq<(String, ColValue)>, i: int, entry: (String, ColValue))
    requires
        names_distinct(entries),
        0 <= i < entries.len(),
        entries[i].0@ == entry.0@,
    ensures
        fields_of(entries_model(entries.update(i, entry))) == fields_of(
            entries_model(entries),
        ).insert(entry.0@, entry.1.model()),
{
    let after = entries.update(i, entry);
    let was = fields_of(entries_model(entries));
    let is = fields_of(entries_model(after));
    lemma_names_kept(entries, i, entry);
    lemma_entries_model(entries);
    lemma_entries_model(after);
    lemma_entry_value(after, i);
    assert forall|name: Seq<char>| is.contains_key(name) == was.insert(
        entry.0@,
        entry.1.model(),
    ).contains_key(name) by {
        law_fields_are_those_set(entries_model(entries), name);
        law_fields_are_those_set(entries_model(after), name);
        if is.contains_key(name) && name != entry.0@ {
            let j = choose|j: int|
                0 <= j < after.len() && (#[trigger] entries_model(after)[j]).0 == name;
            assert(entries_model(entries)[j].0 == name);
        }
        if was.contains_key(name) && name != entry.0@ {
            let j = choose|j: int|
                0 <= j < entries.len() && (#[trigger] entries_model(entries)[j]).0 == name;
            assert(entries_model(after)[j].0 == name);
        }
    }
    assert forall|name: Seq<char>| is.contains_key(name) implies is[name] == was.insert(
        entry.0@,
        entry.1.model(),
    )[name] by {
        law_fields_are_those_set(entries_model(after), name);
        let j = choose|j: int|
            0 <= j < after.len() && (#[trigger] entries_model(after)[j]).0 == name;
        lemma_entry_value(after, j);
        lemma_entry_value(entries, j);
    }
    assert(is =~= was.insert(entry.0@, entry.1.model()));
}

} // verus!
