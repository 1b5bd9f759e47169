//! The registry of the fields known on the bus.
use crate::error::BsbError;
use crate::fixed::char_from;
use crate::text::chars_of;
use crate::value::Datatype;
use vstd::prelude::*;

verus! {

/// Why a field could not be resolved.
#[derive(Clone, Copy, Debug, PartialEq, Eq, Structural)]
pub enum FieldError {
    /// No field has the id or the name.
    UnknownField,
    /// Text is not of the form `<name>: <value>`.
    InvalidFieldValue,
}

/// A datapoint of the bus: its id, name, program number, datatype and topic
/// path.
#[derive(Clone, Copy, Debug, PartialEq, Eq)]
pub struct Field {
    pub id: u32,
    pub name: &'static str,
    pub prognr: usize,
    pub datatype: Datatype,
    pub path: &'static str,
}

/// Number of fields in the registry.
pub const FIELD_COUNT: usize = 3;

/// The registry, entry by entry.
pub open spec fn registry_entry(i: int) -> Option<Field> {
    if i == 0 {
        Some(
            Field {
                id: 0x313d052f,
                name: "warmwater_temperature",
                prognr: 8701,
                datatype: Datatype::Float(64),
                path: "temperature/warmwater",
            },
        )
    } else if i == 1 {
        Some(
            Field {
                id: 0x053d19f0,
                name: "water_pressure",
                prognr: 8327,
                datatype: Datatype::Float(10),
                path: "system/water_pressure",
            },
        )
    } else if i == 2 {
        Some(
            Field {
                id: 0x0d3d092a,
                name: "warmwater_operating_mode",
                prognr: 1600,
                datatype: Datatype::Setting(2),
                path: "warmwater/operating_mode",
            },
        )
    } else {
        None
    }
}

/// The registry entry that holds a field id.
pub open spec fn index_of_id(id: u32) -> Option<int> {
    if id == 0x313d052f {
        Some(0)
    } else if id == 0x053d19f0 {
        Some(1)
    } else if id == 0x0d3d092a {
        Some(2)
    } else {
        None
    }
}

/// The field registered under an id.
pub open spec fn lookup(id: u32) -> Option<Field> {
    match index_of_id(id) {
        Some(i) => registry_entry(i),
        None => None,
    }
}

/// The first field at or after entry `i` whose name is `name`.
pub open spec fn lookup_name_from(name: Seq<char>, i: int) -> Option<Field>
    decreases FIELD_COUNT - i,
{
    if i < 0 || i >= FIELD_COUNT {
        None
    } else {
        match registry_entry(i) {
            Some(f) => if f.name@ == name {
                Some(f)
            } else {
                lookup_name_from(name, i + 1)
            },
            None => None,
        }
    }
}

/// The first field whose name is `name`.
pub open spec fn lookup_name(name: Seq<char>) -> Option<Field> {
    lookup_name_from(name, 0)
}

/// The field is in the registry.
pub open spec fn registered(f: Field) -> bool {
    lookup(f.id) == Some(f)
}

/// Every entry is found by its id, and no id outside the table is: ids are
/// unique.
pub proof fn lemma_registry_ids(i: int)
    requires
        0 <= i < FIELD_COUNT,
    ensures
        registry_entry(i) matches Some(f) && index_of_id(f.id) == Some(i) && f.datatype.wf(),
{
}

/// A field found by name is registered under its id.
pub proof fn lemma_name_registered(name: Seq<char>, i: int)
    requires
        lookup_name_from(name, i) is Some,
    ensures
        registered(lookup_name_from(name, i)->0),
    decreases FIELD_COUNT - i,
{
    if 0 <= i < FIELD_COUNT {
        lemma_registry_ids(i);
        if registry_entry(i)->0.name@ != name {
            lemma_name_registered(name, i + 1);
        }
    }
}

/// Registered names hold no colon, have no space at their ends, and each
/// one finds its own field.
pub proof fn lemma_registry_names(i: int)
    requires
        0 <= i < FIELD_COUNT,
    ensures
        registry_entry(i) matches Some(f) && char_from(f.name@, ':', 0) == f.name@.len()
            && f.name@.len() > 0 && f.name@[0] != ' ' && f.name@.last() != ' ' && lookup_name(
            f.name@,
        ) == Some(f),
{
    reveal_strlit("warmwater_temperature");
    reveal_strlit("water_pressure");
    reveal_strlit("warmwater_operating_mode");
    reveal_with_fuel(char_from, 30);
    reveal_with_fuel(lookup_name_from, 4);
}

/// The field of entry `i`.
fn entry(i: usize) -> (r: Option<Field>)
    ensures
        r == registry_entry(i as int),
{
    if i == 0 {
        Some(
            Field {
                id: 0x313d052f,
                name: "warmwater_temperature",
                prognr: 8701,
                datatype: Datatype::Float(64),
                path: "temperature/warmwater",
            },
        )
    } else if i == 1 {
        Some(
            Field {
                id: 0x053d19f0,
                name: "water_pressure",
                prognr: 8327,
                datatype: Datatype::Float(10),
                path: "system/water_pressure",
            },
        )
    } else if i == 2 {
        Some(
            Field {
                id: 0x0d3d092a,
                name: "warmwater_operating_mode",
                prognr: 1600,
                datatype: Datatype::Setting(2),
                path: "warmwater/operating_mode",
            },
        )
    } else {
        None
    }
}

/// The registry entry that holds a field id.
fn index_of(id: u32) -> (r: Option<usize>)
    ensures
        r matches Some(i) ==> index_of_id(id) == Some(i as int),
        r is None ==> index_of_id(id) is None,
{
    match id {
        0x313d052f => Some(0),
        0x053d19f0 => Some(1),
        0x0d3d092a => Some(2),
        _ => None,
    }
}

/// Whether two strings hold the same characters.
fn same_text(a: &str, b: &str) -> (r: bool)
    ensures
        r == (a@ == b@),
{
    let x = chars_of(a);
    let y = chars_of(b);
    if x.len() != y.len() {
        return false;
    }
    let mut i: usize = 0;
    while i < x.len()
        invariant
            i <= x@.len() == y@.len(),
            x@ == a@,
            y@ == b@,
            forall|j: int| 0 <= j < i ==> x@[j] == y@[j],
        decreases x@.len() - i,
    {
        if x[i] != y[i] {
            return false;
        }
        i += 1;
    }
    assert(x@ =~= y@);
    true
}

impl Field {
    /// The field registered under `id`.
    pub fn by_id(id: u32) -> (r: Result<Field, BsbError>)
        ensures
            match r {
                Ok(f) => lookup(id) == Some(f),
                Err(e) => lookup(id) is None && e == BsbError::Field(FieldError::UnknownField),
            },
    {
        match index_of(id) {
            Some(i) => match entry(i) {
                Some(f) => Ok(f),
                None => Err(BsbError::Field(FieldError::UnknownField)),
            },
            None => Err(BsbError::Field(FieldError::UnknownField)),
        }
    }

    /// The first registered field named `name`.
    pub fn by_name(name: &str) -> (r: Option<Field>)
        ensures
            r == lookup_name(name@),
    {
        let mut i: usize = 0;
        while i < FIELD_COUNT
            invariant
                i <= FIELD_COUNT,
                lookup_name(name@) == lookup_name_from(name@, i as int),
            decreases FIELD_COUNT - i,
        {
            match entry(i) {
                Some(f) => {
                    if same_text(f.name, name) {
                        return Some(f);
                    }
                },
                None => {
                    return None;
                },
            }
            i += 1;
        }
        None
    }

    /// All registered fields, in registry order.
    pub fn iter() -> (r: Vec<Field>)
        ensures
            r@.len() == FIELD_COUNT,
            forall|i: int| 0 <= i < FIELD_COUNT ==> registry_entry(i) == Some(#[trigger] r@[i]),
    {
        let mut r: Vec<Field> = Vec::new();
        let mut i: usize = 0;
        while i < FIELD_COUNT
            invariant
                i <= FIELD_COUNT,
                r@.len() == i,
                forall|j: int| 0 <= j < i ==> registry_entry(j) == Some(#[trigger] r@[j]),
            decreases FIELD_COUNT - i,
        {
            match entry(i) {
                Some(f) => r.push(f),
                None => {
                    return r;
                },
            }
            i += 1;
        }
        r
    }

    /// The field id.
    pub fn id(&self) -> (r: u32)
        ensures
            r == self.id,
    {
        self.id
    }

    /// The datatype of the field's values.
    pub fn datatype(&self) -> (r: Datatype)
        ensures
            r == self.datatype,
    {
        self.datatype
    }

    /// The program number of the field.
    pub fn prognr(&self) -> (r: usize)
        ensures
            r == self.prognr,
    {
        self.prognr
    }

    /// The name of the field.
    pub fn name(&self) -> (r: &'static str)
        ensures
            r == self.name,
    {
        self.name
    }

    /// The topic path of the field.
    pub fn path(&self) -> (r: &'static str)
        ensures
            r == self.path,
    {
        self.path
    }

    /// The text of the field: its name.
    pub fn to_string(&self) -> (r: String)
        ensures
            r@ == self.name@,
    {
        self.name.to_owned()
    }
}

} // verus!
