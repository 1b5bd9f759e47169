//! Values bound to a registered field.
use crate::error::BsbError;
use crate::field::{
    index_of_id, lemma_name_registered, lemma_registry_ids, lemma_registry_names, lookup,
    lookup_name, registered, Field, FieldError,
};
use crate::fixed::{char_from, copy_chars};
use crate::frame::Frame;
use crate::text::{chars_of, push_str_chars, string_of, trim, trim_bounds, trim_end, trim_start};
use crate::typed_value::{
    decode_spec, default_flag, encode_spec, typed, typed_from_text, typed_wf, TypedValue, TypedValueError,
    TypedValueView,
};
use crate::value::{
    default_value, find_char, lemma_text_round_trip, lemma_value_text_ends, value_text,
};
use vstd::prelude::*;

verus! {

/// A typed value of a registered field, whose datatype it has.
#[derive(Debug, PartialEq, Eq)]
pub struct FieldValue {
    field_id: u32,
    typed_value: TypedValue,
}

/// The mathematical form of a `FieldValue`.
pub struct FieldValueView {
    pub field_id: u32,
    pub value: TypedValueView,
}

impl View for FieldValue {
    type V = FieldValueView;

    closed spec fn view(&self) -> FieldValueView {
        FieldValueView { field_id: self.field_id, value: self.typed_value@ }
    }
}

/// The field id is registered and the value has the field's datatype.
pub open spec fn field_value_wf(v: FieldValueView) -> bool {
    match lookup(v.field_id) {
        Some(f) => f.datatype == v.value.datatype,
        None => false,
    }
}

/// Binding a typed value to a field id.
pub open spec fn bind_spec(field_id: u32, t: TypedValueView) -> Result<FieldValueView, BsbError> {
    match lookup(field_id) {
        None => Err(BsbError::Field(FieldError::UnknownField)),
        Some(f) => if f.datatype == t.datatype {
            Ok(FieldValueView { field_id, value: t })
        } else {
            Err(BsbError::TypedValueError(TypedValueError::InvalidDatatype))
        },
    }
}

/// Decoding a frame's payload under its field's datatype.
pub open spec fn from_frame_spec(field_id: u32, payload: Seq<u8>) -> Result<FieldValueView, BsbError> {
    match lookup(field_id) {
        None => Err(BsbError::Field(FieldError::UnknownField)),
        Some(f) => match decode_spec(payload, f.datatype) {
            Ok(t) => Ok(FieldValueView { field_id, value: t }),
            Err(e) => Err(BsbError::TypedValueError(e)),
        },
    }
}

/// Reading the text form of a value of a field.
pub open spec fn from_str_spec(s: Seq<char>, field_id: u32) -> Result<FieldValueView, BsbError> {
    match lookup(field_id) {
        None => Err(BsbError::Field(FieldError::UnknownField)),
        Some(f) => match typed_from_text(s, f.datatype) {
            Ok(t) => Ok(FieldValueView { field_id, value: t }),
            Err(e) => Err(e),
        },
    }
}

/// Reading `<name>: <value>`: the text before the first colon names the
/// field, the text after it is the value; spaces at their ends are dropped.
pub open spec fn from_text_spec(s: Seq<char>) -> Result<FieldValueView, BsbError> {
    let c = char_from(s, ':', 0);
    if c >= s.len() {
        Err(BsbError::Field(FieldError::InvalidFieldValue))
    } else {
        match lookup_name(trim(s.subrange(0, c))) {
            None => Err(BsbError::Field(FieldError::UnknownField)),
            Some(f) => from_str_spec(trim(s.subrange(c + 1, s.len() as int)), f.id),
        }
    }
}

/// `<name>: <value>`.
pub open spec fn field_value_text(v: FieldValueView) -> Seq<char> {
    match lookup(v.field_id) {
        Some(f) => f.name@ + seq![':', ' '] + value_text(v.value.value),
        None => Seq::<char>::empty(),
    }
}

proof fn lemma_registered_wf(id: u32)
    requires
        lookup(id) is Some,
    ensures
        lookup(id)->0.datatype.wf(),
        lookup(id)->0.id == id,
{
    lemma_registry_ids(crate::field::index_of_id(id)->0);
}

proof fn lemma_char_from_before(a: Seq<char>, b: Seq<char>, c: char, i: int)
    requires
        0 <= i <= a.len(),
        char_from(a, c, i) == a.len(),
        b.len() > 0,
        b[0] == c,
    ensures
        char_from(a + b, c, i) == a.len(),
    decreases a.len() - i,
{
    if i < a.len() {
        assert(a[i] != c);
        lemma_char_from_before(a, b, c, i + 1);
    }
}

/// Reading the text `<name>: <value>` of a field value gives it back, for a
/// value whose flag is the one text gives (0, and none for a schedule): the
/// text carries no flag. Dates are left out, as for the text of values.
#[verifier::rlimit(50)]
pub proof fn lemma_field_text_round_trip(v: FieldValueView)
    requires
        field_value_wf(v),
        typed_wf(v.value),
        v.value.flag == default_flag(v.value.datatype),
        !(v.value.value is DateTime),
    ensures
        from_text_spec(field_value_text(v)) == Ok::<FieldValueView, BsbError>(v),
{
    let f = lookup(v.field_id)->0;
    lemma_registered_wf(v.field_id);
    lemma_registry_names(index_of_id(v.field_id)->0);
    let name = f.name@;
    let vt = value_text(v.value.value);
    lemma_text_round_trip(v.value.value, f.datatype);
    let s = field_value_text(v);
    let tail = seq![':', ' '] + vt;
    assert(s =~= name + tail);
    lemma_char_from_before(name, tail, ':', 0);
    assert(s.subrange(0, name.len() as int) =~= name);
    assert(trim(name) == name);
    let after = s.subrange(name.len() as int + 1, s.len() as int);
    assert(after =~= seq![' '] + vt);
    assert(after.drop_first() =~= vt);
    if vt.len() == 0 {
        assert(trim_start(vt) == vt);
    } else {
        lemma_value_text_ends(v.value.value);
        assert(trim_start(vt) == vt);
    }
    assert(after[0] == ' ');
    assert(trim_start(after) == trim_start(after.drop_first()));
    assert(trim_start(after) == vt);
    assert(trim_end(vt) == vt);
    assert(trim(after) == vt);
    assert(lookup_name(trim(s.subrange(0, name.len() as int))) == Some(f));
    assert(f.id == v.field_id);
    assert(v.value == typed(f.datatype, default_flag(f.datatype), v.value.value));
    assert(typed_from_text(vt, f.datatype) == Ok::<TypedValueView, BsbError>(v.value));
    assert(from_str_spec(vt, f.id) == Ok::<FieldValueView, BsbError>(v));
}

impl FieldValue {
    #[verifier::type_invariant]
    spec fn inv(&self) -> bool {
        field_value_wf(self@)
    }

    /// Bind a typed value to a field id: the field must be registered and
    /// have the value's datatype.
    pub fn new(field_id: u32, typed_value: TypedValue) -> (r: Result<FieldValue, BsbError>)
        ensures
            match r {
                Ok(v) => bind_spec(field_id, typed_value@) == Ok::<FieldValueView, BsbError>(v@),
                Err(e) => bind_spec(field_id, typed_value@) == Err::<FieldValueView, BsbError>(e),
            },
    {
        let field = Field::by_id(field_id)?;
        if field.datatype != *typed_value.datatype() {
            return Err(BsbError::TypedValueError(TypedValueError::InvalidDatatype));
        }
        Ok(FieldValue { field_id, typed_value })
    }

    /// Decode a frame's payload under the datatype of its field.
    pub fn from_frame(frame: &Frame) -> (r: Result<FieldValue, BsbError>)
        ensures
            match r {
                Ok(v) => from_frame_spec(frame.field_id, frame.payload@) == Ok::<
                    FieldValueView,
                    BsbError,
                >(v@),
                Err(e) => from_frame_spec(frame.field_id, frame.payload@) == Err::<
                    FieldValueView,
                    BsbError,
                >(e),
            },
    {
        let field = Field::by_id(frame.field_id())?;
        proof {
            lemma_registered_wf(frame.field_id);
        }
        match TypedValue::decode(frame.payload(), field.datatype()) {
            Ok(typed_value) => Ok(FieldValue { field_id: frame.field_id(), typed_value }),
            Err(e) => Err(BsbError::TypedValueError(e)),
        }
    }

    /// Read the text form of a value of the field with id `field_id`.
    pub fn from_str(s: &str, field_id: u32) -> (r: Result<FieldValue, BsbError>)
        ensures
            match r {
                Ok(v) => from_str_spec(s@, field_id) == Ok::<FieldValueView, BsbError>(v@),
                Err(e) => from_str_spec(s@, field_id) == Err::<FieldValueView, BsbError>(e),
            },
    {
        let field = Field::by_id(field_id)?;
        proof {
            lemma_registered_wf(field_id);
        }
        let typed_value = TypedValue::from_str(s, field.datatype())?;
        Ok(FieldValue { field_id, typed_value })
    }

    /// Read `<name>: <value>`.
    pub fn from_text(s: &str) -> (r: Result<FieldValue, BsbError>)
        ensures
            match r {
                Ok(v) => from_text_spec(s@) == Ok::<FieldValueView, BsbError>(v@),
                Err(e) => from_text_spec(s@) == Err::<FieldValueView, BsbError>(e),
            },
    {
        let chars = chars_of(s);
        let n = chars.len();
        assert(chars@.subrange(0, n as int) =~= chars@);
        let c = find_char(&chars, ':', 0, n);
        if c == n {
            return Err(BsbError::Field(FieldError::InvalidFieldValue));
        }
        let (a, b) = trim_bounds(&chars, 0, c);
        let mut name: Vec<char> = Vec::new();
        copy_chars(&mut name, &chars, a, b);
        let name = string_of(&name);
        let field = match Field::by_name(name.as_str()) {
            Some(f) => f,
            None => {
                return Err(BsbError::Field(FieldError::UnknownField));
            },
        };
        proof {
            lemma_name_registered(name@, 0);
        }
        let (a, b) = trim_bounds(&chars, c + 1, n);
        let mut value: Vec<char> = Vec::new();
        copy_chars(&mut value, &chars, a, b);
        let value = string_of(&value);
        FieldValue::from_str(value.as_str(), field.id())
    }

    /// The topic path of the field.
    pub fn path(&self) -> (r: &'static str)
        ensures
            lookup(self@.field_id) matches Some(f) && r == f.path,
    {
        self.field().path()
    }

    /// The field id.
    pub fn field_id(&self) -> (r: u32)
        ensures
            r == self@.field_id,
    {
        self.field_id
    }

    /// The registered field.
    pub fn field(&self) -> (r: Field)
        ensures
            lookup(self@.field_id) == Some(r),
            r.datatype == self@.value.datatype,
    {
        proof {
            use_type_invariant(self);
        }
        Field::by_id(self.field_id).unwrap()
    }

    /// The typed value.
    pub fn typed_value(&self) -> (r: &TypedValue)
        ensures
            r@ == self@.value,
    {
        &self.typed_value
    }

    /// The text form of the value.
    pub fn value_str(&self) -> (r: String)
        ensures
            r@ == value_text(self@.value.value),
    {
        self.typed_value.to_string()
    }

    /// The payload bytes of the value.
    pub fn encode(&self) -> (r: Vec<u8>)
        ensures
            r@ == encode_spec(self@.value),
    {
        self.typed_value.encode()
    }

    /// The value that stands for zero in the field's datatype; the flag is 0,
    /// and none for a schedule.
    pub fn default_for_field(field: &Field) -> (r: FieldValue)
        requires
            registered(*field),
        ensures
            r@ == (FieldValueView {
                field_id: field.id,
                value: typed(field.datatype, default_flag(field.datatype), default_value(field.datatype)),
            }),
    {
        proof {
            lemma_registered_wf(field.id);
        }
        FieldValue {
            field_id: field.id(),
            typed_value: TypedValue::default_for_datatype(field.datatype()),
        }
    }

    /// `<name>: <value>`.
    pub fn to_string(&self) -> (r: String)
        ensures
            r@ == field_value_text(self@),
    {
        let field = self.field();
        let value = self.value_str();
        let mut out = chars_of(field.name());
        out.push(':');
        out.push(' ');
        push_str_chars(&mut out, value.as_str());
        assert(out@ =~= field_value_text(self@));
        string_of(&out)
    }
}

impl Frame {
    /// The field value that the frame carries, if its field is registered
    /// and its payload decodes.
    pub fn try_decode(&self) -> (r: Option<FieldValue>)
        ensures
            match r {
                Some(v) => from_frame_spec(self.field_id, self.payload@) == Ok::<
                    FieldValueView,
                    BsbError,
                >(v@),
                None => from_frame_spec(self.field_id, self.payload@) is Err,
            },
    {
        match FieldValue::from_frame(self) {
            Ok(v) => Some(v),
            Err(_) => None,
        }
    }
}

} // verus!
