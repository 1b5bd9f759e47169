//! Values together with their datatype and flag byte, and their payload
//! encoding.
use crate::calendar::{weekday_of, DateTime};
use crate::error::BsbError;
use crate::frame::be16_value;
use crate::value::{
    default_value, range_valid, ranges_valid, value_fits, value_from_text, value_text,
    Datatype, ScheduleRange, Value, ValueError, ValueView,
};
use vstd::prelude::*;

verus! {

/// Why a payload or a value does not make a typed value.
#[derive(Clone, Copy, Debug, PartialEq, Eq, Structural)]
pub enum TypedValueError {
    InvalidDateTime,
    InvalidPayloadLength,
    InvalidSchedule,
    InvalidSetting,
    InvalidDatatype,
}

/// A value with its datatype and the flag byte that precedes it in a
/// payload.
#[derive(Debug, PartialEq, Eq)]
pub struct TypedValue {
    datatype: Datatype,
    flag: Option<u8>,
    value: Value,
}

/// The mathematical form of a `TypedValue`.
pub struct TypedValueView {
    pub datatype: Datatype,
    pub flag: Option<u8>,
    pub value: ValueView,
}

/// The flag is present exactly when the datatype has one on the wire:
/// every datatype but `Schedule`.
pub open spec fn flag_canonical(t: TypedValueView) -> bool {
    t.flag is None <==> t.datatype is Schedule
}

/// The value fits the datatype, and the flag is present exactly when the
/// datatype has one.
pub open spec fn typed_wf(t: TypedValueView) -> bool {
    &&& t.datatype.wf()
    &&& value_fits(t.datatype, t.value)
    &&& flag_canonical(t)
}

/// The flag of a value made from text or as a default: 0, and none for a
/// schedule.
pub open spec fn default_flag(dt: Datatype) -> Option<u8> {
    if dt is Schedule {
        None
    } else {
        Some(0u8)
    }
}

/// The ranges of a schedule payload, up to the first record whose first
/// byte has its high bit set or up to the end.
pub open spec fn schedule_ranges(p: Seq<u8>) -> Seq<ScheduleRange>
    decreases p.len(),
{
    if p.len() < 4 || p[0] >= 0x80 {
        Seq::<ScheduleRange>::empty()
    } else {
        seq![(p[0], p[1], p[2], p[3])] + schedule_ranges(p.subrange(4, p.len() as int))
    }
}

/// The date and time of a date payload.
pub open spec fn payload_datetime(p: Seq<u8>) -> DateTime {
    DateTime {
        year: (1900 + p[1]) as u16,
        month: p[2],
        day: p[3],
        hour: p[5],
        minute: p[6],
        second: p[7],
    }
}

pub open spec fn typed(dt: Datatype, flag: Option<u8>, v: ValueView) -> TypedValueView {
    TypedValueView { datatype: dt, flag, value: v }
}

/// Decoding a payload under a datatype.
pub open spec fn decode_spec(p: Seq<u8>, dt: Datatype) -> Result<TypedValueView, TypedValueError> {
    match dt {
        Datatype::Setting(max) => if p.len() < 2 {
            Err(TypedValueError::InvalidPayloadLength)
        } else if p[1] > max {
            Err(TypedValueError::InvalidSetting)
        } else {
            Ok(typed(dt, Some(p[0]), ValueView::Setting(p[1])))
        },
        Datatype::Number => if p.len() < 3 {
            Err(TypedValueError::InvalidPayloadLength)
        } else {
            Ok(typed(dt, Some(p[0]), ValueView::Number(be16_value(p[1], p[2]))))
        },
        Datatype::Float(d) => if p.len() < 3 {
            Err(TypedValueError::InvalidPayloadLength)
        } else {
            Ok(
                typed(
                    dt,
                    Some(p[0]),
                    ValueView::Float { raw: be16_value(p[1], p[2]) as i16, divisor: d },
                ),
            )
        },
        Datatype::DateTime => if p.len() < 9 {
            Err(TypedValueError::InvalidPayloadLength)
        } else if !payload_datetime(p).valid() {
            Err(TypedValueError::InvalidDateTime)
        } else {
            Ok(typed(dt, Some(p[0]), ValueView::DateTime(payload_datetime(p))))
        },
        Datatype::Schedule => if p.len() % 4 != 0 || !ranges_valid(schedule_ranges(p)) {
            Err(TypedValueError::InvalidSchedule)
        } else {
            Ok(typed(dt, None, ValueView::Schedule(schedule_ranges(p))))
        },
    }
}

/// The record that ends every schedule payload.
pub open spec fn schedule_terminator() -> Seq<u8> {
    seq![0x98u8, 0x00u8, 0x18u8, 0x00u8]
}

pub open spec fn range_bytes(r: ScheduleRange) -> Seq<u8> {
    seq![r.0, r.1, r.2, r.3]
}

pub open spec fn schedule_bytes(rs: Seq<ScheduleRange>) -> Seq<u8>
    decreases rs.len(),
{
    if rs.len() == 0 {
        Seq::<u8>::empty()
    } else {
        range_bytes(rs[0]) + schedule_bytes(rs.drop_first())
    }
}

/// The payload of a typed value.
pub open spec fn encode_spec(t: TypedValueView) -> Seq<u8> {
    let f = match t.flag {
        Some(f) => f,
        None => 0u8,
    };
    match t.value {
        ValueView::Setting(v) => seq![f, v],
        ValueView::Number(n) => seq![f, (n >> 8) as u8, n as u8],
        ValueView::Float { raw, divisor: _ } => seq![f, ((raw as u16) >> 8) as u8, raw as u16 as u8],
        ValueView::DateTime(x) => seq![
            f,
            (x.year - 1900) as u8,
            x.month,
            x.day,
            weekday_of(x.year as int, x.month as int, x.day as int),
            x.hour,
            x.minute,
            x.second,
            0u8,
        ],
        ValueView::Schedule(rs) => schedule_bytes(rs) + schedule_terminator(),
    }
}

/// The error, if any, of making a typed value of these parts.
pub open spec fn new_error(dt: Datatype, flag: Option<u8>, v: ValueView) -> Option<TypedValueError> {
    match (dt, v) {
        (Datatype::Setting(max), ValueView::Setting(x)) => if x > max {
            Some(TypedValueError::InvalidSetting)
        } else if flag is None {
            Some(TypedValueError::InvalidDatatype)
        } else {
            None
        },
        (Datatype::Number, ValueView::Number(_)) => if flag is None {
            Some(TypedValueError::InvalidDatatype)
        } else {
            None
        },
        (Datatype::Float(d), ValueView::Float { raw: _, divisor }) => if divisor != d || flag is None {
            Some(TypedValueError::InvalidDatatype)
        } else {
            None
        },
        (Datatype::DateTime, ValueView::DateTime(t)) => if !t.wf() {
            Some(TypedValueError::InvalidDateTime)
        } else if flag is None {
            Some(TypedValueError::InvalidDatatype)
        } else {
            None
        },
        (Datatype::Schedule, ValueView::Schedule(rs)) => if !ranges_valid(rs) {
            Some(TypedValueError::InvalidSchedule)
        } else if flag is Some {
            Some(TypedValueError::InvalidDatatype)
        } else {
            None
        },
        _ => Some(TypedValueError::InvalidDatatype),
    }
}

/// Reading the text form of a value of the datatype, with the default flag.
pub open spec fn typed_from_text(s: Seq<char>, dt: Datatype) -> Result<TypedValueView, BsbError> {
    match value_from_text(s, dt) {
        Ok(v) => Ok(typed(dt, default_flag(dt), v)),
        Err(e) => Err(BsbError::ValueError(e)),
    }
}

impl View for TypedValue {
    type V = TypedValueView;

    closed spec fn view(&self) -> TypedValueView {
        TypedValueView { datatype: self.datatype, flag: self.flag, value: self.value@ }
    }
}

proof fn lemma_schedule_bytes_len(rs: Seq<ScheduleRange>)
    ensures
        schedule_bytes(rs).len() == 4 * rs.len(),
    decreases rs.len(),
{
    if rs.len() > 0 {
        lemma_schedule_bytes_len(rs.drop_first());
    }
}

proof fn lemma_schedule_bytes_ranges(rs: Seq<ScheduleRange>)
    requires
        ranges_valid(rs),
    ensures
        schedule_ranges(schedule_bytes(rs) + schedule_terminator()) == rs,
    decreases rs.len(),
{
    let b = schedule_bytes(rs) + schedule_terminator();
    if rs.len() == 0 {
        assert(b =~= schedule_terminator());
        assert(schedule_ranges(b) =~= rs);
    } else {
        let rest = rs.drop_first();
        assert(ranges_valid(rest)) by {
            assert forall|i: int| 0 <= i < rest.len() implies range_valid(#[trigger] rest[i]) by {
                assert(rest[i] == rs[i + 1]);
            }
        }
        lemma_schedule_bytes_ranges(rest);
        assert(range_valid(rs[0]));
        assert(b.subrange(4, b.len() as int) =~= schedule_bytes(rest) + schedule_terminator());
        assert(schedule_ranges(b) =~= rs);
    }
}

proof fn lemma_be16_i16(raw: i16)
    ensures
        be16_value(((raw as u16) >> 8) as u8, raw as u16 as u8) as i16 == raw,
{
    let w = raw as u16;
    lemma_be16_u16(w);
    assert((w as i16) == raw) by (bit_vector)
        requires
            w == raw as u16,
    ;
}

proof fn lemma_be16_u16(n: u16)
    ensures
        be16_value((n >> 8) as u8, n as u8) == n,
{
    assert(((((n >> 8) as u8) as u16) << 8 | ((n as u8) as u16)) == n) by (bit_vector);
}

/// Decoding the payload of a typed value gives it back.
pub proof fn lemma_payload_round_trip(t: TypedValueView)
    requires
        typed_wf(t),
    ensures
        decode_spec(encode_spec(t), t.datatype) == Ok::<TypedValueView, TypedValueError>(t),
{
    let p = encode_spec(t);
    match t.value {
        ValueView::Number(n) => {
            lemma_be16_u16(n);
        },
        ValueView::Float { raw, divisor } => {
            lemma_be16_i16(raw);
        },
        ValueView::DateTime(x) => {
            assert(payload_datetime(p) == x);
        },
        ValueView::Schedule(rs) => {
            lemma_schedule_bytes_len(rs);
            lemma_schedule_bytes_ranges(rs);
            assert(p.len() == 4 * rs.len() + 4);
            assert(p.len() % 4 == 0);
        },
        _ => {},
    }
}

/// Whether every range has hours up to 24 and minutes up to 59.
fn all_ranges_valid(rs: &Vec<ScheduleRange>) -> (r: bool)
    ensures
        r == ranges_valid(rs@),
{
    let mut i: usize = 0;
    while i < rs.len()
        invariant
            i <= rs@.len(),
            forall|j: int| 0 <= j < i ==> range_valid(#[trigger] rs@[j]),
        decreases rs@.len() - i,
    {
        let r = rs[i];
        if !(r.0 <= 24 && r.1 <= 59 && r.2 <= 24 && r.3 <= 59) {
            assert(!range_valid(rs@[i as int]));
            return false;
        }
        i += 1;
    }
    true
}

/// A setting above its maximum is refused, in a payload, in text and when
/// making a typed value.
pub proof fn lemma_setting_above_max(max: u8, p: Seq<u8>, s: Seq<char>, v: u8, flag: Option<u8>)
    requires
        v > max,
    ensures
        p.len() >= 2 && p[1] > max ==> decode_spec(p, Datatype::Setting(max)) == Err::<
            TypedValueView,
            TypedValueError,
        >(TypedValueError::InvalidSetting),
        crate::text::parse_unsigned(s, 255) == Some(v as nat) ==> value_from_text(
            s,
            Datatype::Setting(max),
        ) == Err::<ValueView, ValueError>(ValueError::InvalidSetting),
        new_error(Datatype::Setting(max), flag, ValueView::Setting(v)) == Some(
            TypedValueError::InvalidSetting,
        ),
{
}

/// A schedule payload whose length is not a multiple of four is refused.
pub proof fn lemma_schedule_residue(p: Seq<u8>)
    requires
        p.len() % 4 != 0,
    ensures
        decode_spec(p, Datatype::Schedule) == Err::<TypedValueView, TypedValueError>(
            TypedValueError::InvalidSchedule,
        ),
{
}

/// A date payload with month 0 or hour 25 is refused, and so is such a date
/// when making a typed value.
pub proof fn lemma_bad_datetime(p: Seq<u8>, t: DateTime, flag: Option<u8>)
    requires
        t.month == 0 || t.hour == 25,
    ensures
        p.len() >= 9 && (p[2] == 0 || p[5] == 25) ==> decode_spec(p, Datatype::DateTime) == Err::<
            TypedValueView,
            TypedValueError,
        >(TypedValueError::InvalidDateTime),
        new_error(Datatype::DateTime, flag, ValueView::DateTime(t)) == Some(
            TypedValueError::InvalidDateTime,
        ),
{
}

/// Append the bytes of the ranges from index `from` on.
fn push_schedule_bytes(out: &mut Vec<u8>, rs: &Vec<ScheduleRange>, from: usize)
    requires
        from <= rs@.len(),
    ensures
        final(out)@ == old(out)@ + schedule_bytes(rs@.subrange(from as int, rs@.len() as int)),
    decreases rs@.len() - from,
{
    let ghost t = rs@.subrange(from as int, rs@.len() as int);
    if from == rs.len() {
        assert(old(out)@ + schedule_bytes(t) =~= old(out)@);
    } else {
        let r = rs[from];
        out.push(r.0);
        out.push(r.1);
        out.push(r.2);
        out.push(r.3);
        push_schedule_bytes(out, rs, from + 1);
        assert(t.drop_first() =~= rs@.subrange(from + 1, rs@.len() as int));
        assert(final(out)@ =~= old(out)@ + schedule_bytes(t));
    }
}

/// The flag of a value made from text or as a default.
fn flag_for(dt: Datatype) -> (r: Option<u8>)
    ensures
        r == default_flag(dt),
{
    match dt {
        Datatype::Schedule => None,
        _ => Some(0),
    }
}

impl TypedValue {
    #[verifier::type_invariant]
    spec fn inv(&self) -> bool {
        typed_wf(self@)
    }

    /// A typed value of the parts, if the value fits the datatype and a
    /// flag is given where the datatype needs one.
    pub fn new(datatype: Datatype, flag: Option<u8>, value: Value) -> (r: Result<
        TypedValue,
        TypedValueError,
    >)
        requires
            datatype.wf(),
        ensures
            match r {
                Ok(t) => new_error(datatype, flag, value@) is None && t@ == typed(
                    datatype,
                    flag,
                    value@,
                ),
                Err(e) => new_error(datatype, flag, value@) == Some(e),
            },
    {
        match (&value, &datatype) {
            (Value::Setting(v), Datatype::Setting(max)) => {
                if *v > *max {
                    return Err(TypedValueError::InvalidSetting);
                }
            },
            (Value::Number(_), Datatype::Number) => {},
            (Value::Float { raw: _, divisor }, Datatype::Float(d)) => {
                if *divisor != *d {
                    return Err(TypedValueError::InvalidDatatype);
                }
            },
            (Value::DateTime(t), Datatype::DateTime) => {
                if !t.check() {
                    return Err(TypedValueError::InvalidDateTime);
                }
            },
            (Value::Schedule(rs), Datatype::Schedule) => {
                if !all_ranges_valid(rs) {
                    return Err(TypedValueError::InvalidSchedule);
                }
            },
            _ => {
                return Err(TypedValueError::InvalidDatatype);
            },
        }
        if flag.is_none() != matches!(datatype, Datatype::Schedule) {
            return Err(TypedValueError::InvalidDatatype);
        }
        Ok(TypedValue { datatype, flag, value })
    }

    /// The value.
    pub fn value(&self) -> (r: &Value)
        ensures
            r@ == self@.value,
            typed_wf(self@),
    {
        proof {
            use_type_invariant(self);
        }
        &self.value
    }

    /// The datatype.
    pub fn datatype(&self) -> (r: &Datatype)
        ensures
            *r == self@.datatype,
            typed_wf(self@),
    {
        proof {
            use_type_invariant(self);
        }
        &self.datatype
    }

    /// The flag byte.
    pub fn flag(&self) -> (r: Option<u8>)
        ensures
            r == self@.flag,
    {
        self.flag
    }

    /// Read the text form of a value of the datatype; the flag is 0, and none
    /// for a schedule.
    pub fn from_str(s: &str, datatype: Datatype) -> (r: Result<TypedValue, BsbError>)
        requires
            datatype.wf(),
        ensures
            match r {
                Ok(t) => typed_from_text(s@, datatype) == Ok::<TypedValueView, BsbError>(t@),
                Err(e) => typed_from_text(s@, datatype) == Err::<TypedValueView, BsbError>(e),
            },
    {
        match Value::from_str(s, datatype) {
            Ok(value) => Ok(TypedValue { datatype, flag: flag_for(datatype), value }),
            Err(e) => Err(BsbError::ValueError(e)),
        }
    }

    /// Decode a payload under the datatype.
    pub fn decode(payload: &[u8], datatype: Datatype) -> (r: Result<TypedValue, TypedValueError>)
        requires
            datatype.wf(),
        ensures
            match r {
                Ok(t) => decode_spec(payload@, datatype) == Ok::<TypedValueView, TypedValueError>(
                    t@,
                ),
                Err(e) => decode_spec(payload@, datatype) == Err::<TypedValueView, TypedValueError>(
                    e,
                ),
            },
    {
        let n = payload.len();
        match datatype {
            Datatype::Setting(max) => {
                if n < 2 {
                    return Err(TypedValueError::InvalidPayloadLength);
                }
                if payload[1] > max {
                    return Err(TypedValueError::InvalidSetting);
                }
                Ok(TypedValue { datatype, flag: Some(payload[0]), value: Value::Setting(payload[1]) })
            },
            Datatype::Number => {
                if n < 3 {
                    return Err(TypedValueError::InvalidPayloadLength);
                }
                let v = ((payload[1] as u16) << 8) | (payload[2] as u16);
                Ok(TypedValue { datatype, flag: Some(payload[0]), value: Value::Number(v) })
            },
            Datatype::Float(d) => {
                if n < 3 {
                    return Err(TypedValueError::InvalidPayloadLength);
                }
                let v = ((payload[1] as u16) << 8) | (payload[2] as u16);
                Ok(
                    TypedValue {
                        datatype,
                        flag: Some(payload[0]),
                        value: Value::Float { raw: v as i16, divisor: d },
                    },
                )
            },
            Datatype::DateTime => {
                if n < 9 {
                    return Err(TypedValueError::InvalidPayloadLength);
                }
                let t = DateTime {
                    year: 1900 + payload[1] as u16,
                    month: payload[2],
                    day: payload[3],
                    hour: payload[5],
                    minute: payload[6],
                    second: payload[7],
                };
                assert(t == payload_datetime(payload@));
                if !t.check() {
                    return Err(TypedValueError::InvalidDateTime);
                }
                Ok(TypedValue { datatype, flag: Some(payload[0]), value: Value::DateTime(t) })
            },
            Datatype::Schedule => {
                let mut ranges: Vec<ScheduleRange> = Vec::new();
                let mut i: usize = 0;
                assert(payload@.subrange(0, n as int) =~= payload@);
                while n - i >= 4 && payload[i] < 0x80
                    invariant
                        i <= n == payload@.len(),
                        schedule_ranges(payload@) == ranges@ + schedule_ranges(
                            payload@.subrange(i as int, n as int),
                        ),
                        ranges_valid(ranges@),
                        datatype == Datatype::Schedule,
                    decreases n - i,
                {
                    let ghost rest = payload@.subrange(i as int, n as int);
                    let r = (payload[i], payload[i + 1], payload[i + 2], payload[i + 3]);
                    assert(rest.subrange(4, rest.len() as int) =~= payload@.subrange(
                        i + 4,
                        n as int,
                    ));
                    assert(schedule_ranges(rest) == seq![r] + schedule_ranges(
                        payload@.subrange(i + 4, n as int),
                    ));
                    if !(r.0 <= 24 && r.1 <= 59 && r.2 <= 24 && r.3 <= 59) {
                        assert(schedule_ranges(payload@)[ranges@.len() as int] == r);
                        assert(!range_valid(schedule_ranges(payload@)[ranges@.len() as int]));
                        return Err(TypedValueError::InvalidSchedule);
                    }
                    let ghost before = ranges@;
                    ranges.push(r);
                    assert(before + (seq![r] + schedule_ranges(payload@.subrange(i + 4, n as int)))
                        =~= ranges@ + schedule_ranges(payload@.subrange(i + 4, n as int)));
                    i += 4;
                }
                assert(schedule_ranges(payload@.subrange(i as int, n as int)) =~= Seq::<
                    ScheduleRange,
                >::empty());
                assert(schedule_ranges(payload@) =~= ranges@);
                if n % 4 != 0 {
                    return Err(TypedValueError::InvalidSchedule);
                }
                Ok(TypedValue { datatype, flag: None, value: Value::Schedule(ranges) })
            },
        }
    }

    /// The payload bytes of this value; a schedule ends with its terminator
    /// record.
    pub fn encode(&self) -> (r: Vec<u8>)
        ensures
            r@ == encode_spec(self@),
            self@.value is Schedule ==> r@.len() >= 4 && r@.subrange(
                r@.len() - 4,
                r@.len() as int,
            ) == schedule_terminator(),
    {
        proof {
            use_type_invariant(self);
        }
        let f = match self.flag {
            Some(f) => f,
            None => 0,
        };
        match &self.value {
            Value::Setting(v) => vec![f, *v],
            Value::Number(n) => vec![f, (*n >> 8) as u8, *n as u8],
            Value::Float { raw, divisor: _ } => {
                let w = *raw as u16;
                vec![f, (w >> 8) as u8, w as u8]
            },
            Value::DateTime(t) => {
                let wd = t.weekday();
                vec![
                    f,
                    (t.year - 1900) as u8,
                    t.month,
                    t.day,
                    wd,
                    t.hour,
                    t.minute,
                    t.second,
                    0,
                ]
            },
            Value::Schedule(rs) => {
                let mut out: Vec<u8> = Vec::new();
                push_schedule_bytes(&mut out, rs, 0);
                assert(rs@.subrange(0, rs@.len() as int) =~= rs@);
                let ghost body = out@;
                out.push(0x98);
                out.push(0x00);
                out.push(0x18);
                out.push(0x00);
                assert(out@ =~= body + schedule_terminator());
                assert(out@.subrange(out@.len() - 4, out@.len() as int) =~= schedule_terminator());
                out
            },
        }
    }

    /// The text form of the value.
    pub fn to_string(&self) -> (r: String)
        ensures
            r@ == value_text(self@.value),
    {
        proof {
            use_type_invariant(self);
        }
        self.value.to_string()
    }

    /// The value that stands for zero in the datatype; the flag is 0, and
    /// none for a schedule.
    pub fn default_for_datatype(datatype: Datatype) -> (r: TypedValue)
        requires
            datatype.wf(),
        ensures
            r@ == typed(datatype, default_flag(datatype), default_value(datatype)),
    {
        let value = Value::default_for_datatype(datatype);
        TypedValue { datatype, flag: flag_for(datatype), value }
    }
}

} // verus!
