//! A field's name with the text of its value, ready for display.
use crate::field_value::FieldValue;
use crate::field::lookup;
use crate::text::{chars_of, push_str_chars, string_of};
use crate::value::value_text;
use vstd::prelude::*;

verus! {

/// The name of a field and the text of its value.
#[derive(Clone, Debug, PartialEq, Eq)]
pub struct NamedValue {
    name: &'static str,
    value: String,
}

impl NamedValue {
    /// The name of the field.
    pub closed spec fn spec_name(&self) -> &'static str {
        self.name
    }

    /// The text of the value.
    pub closed spec fn spec_value(&self) -> Seq<char> {
        self.value@
    }

    /// A named value of the parts.
    pub fn new(name: &'static str, value: String) -> (r: NamedValue)
        ensures
            r.spec_name() == name,
            r.spec_value() == value@,
    {
        NamedValue { name, value }
    }

    /// The name of the field.
    pub fn name(&self) -> (r: &'static str)
        ensures
            r == self.spec_name(),
    {
        self.name
    }

    /// The text of the value.
    pub fn value(&self) -> (r: &str)
        ensures
            r@ == self.spec_value(),
    {
        self.value.as_str()
    }

    /// The name and value text of a field value.
    pub fn from_field_value(field_value: &FieldValue) -> (r: NamedValue)
        ensures
            lookup(field_value@.field_id) matches Some(f) && r.spec_name() == f.name,
            r.spec_value() == value_text(field_value@.value.value),
    {
        NamedValue::new(field_value.field().name(), field_value.value_str())
    }

    /// `<name>: <value>`.
    pub fn to_string(&self) -> (r: String)
        ensures
            r@ == self.spec_name()@ + seq![':', ' '] + self.spec_value(),
    {
        let mut out = chars_of(self.name);
        out.push(':');
        out.push(' ');
        push_str_chars(&mut out, self.value.as_str());
        assert(out@ =~= self.spec_name()@ + seq![':', ' '] + self.spec_value());
        string_of(&out)
    }
}

} // verus!
