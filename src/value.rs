//! Datatypes of the fields and the values they hold, with their text form.
use crate::calendar::{datetime_from_text, parse_datetime, unix_epoch, DateTime};
use crate::fixed::{
    char_from, fixed_scale, fixed_text, lemma_char_from_skip, lemma_fixed_round_trip, parse_fixed,
    parse_fixed_exec, push_fixed,
};
use crate::text::{
    all_digits, chars_of, decimal, is_digit, lemma_decimal, lemma_padded, lemma_parse_decimal,
    padded, parse_unsigned, parse_unsigned_at, push_decimal, string_of,
};
use vstd::prelude::*;

verus! {

/// One time range of a daily schedule: start hour, start minute, end hour,
/// end minute.
pub type ScheduleRange = (u8, u8, u8, u8);

/// How the value of a field is encoded.
#[derive(Clone, Copy, Debug, PartialEq, Eq, Structural)]
pub enum Datatype {
    /// One of the settings `0..=max`.
    Setting(u8),
    /// An unsigned 16-bit number.
    Number,
    /// A signed 16-bit number divided by the given divisor.
    Float(u8),
    /// A calendar date and time of day.
    DateTime,
    /// A list of daily time ranges.
    Schedule,
}

/// A value of one of the datatypes. A `Float` keeps the raw 16-bit number
/// and its divisor: it stands for `raw / divisor`.
#[derive(Clone, Debug, PartialEq, Eq)]
pub enum Value {
    Setting(u8),
    Number(u16),
    Float { raw: i16, divisor: u8 },
    DateTime(DateTime),
    Schedule(Vec<ScheduleRange>),
}

/// The mathematical form of a `Value`.
pub enum ValueView {
    Setting(u8),
    Number(u16),
    Float { raw: i16, divisor: u8 },
    DateTime(DateTime),
    Schedule(Seq<ScheduleRange>),
}

/// Why text could not be read as a value.
#[derive(Clone, Copy, Debug, PartialEq, Eq, Structural)]
pub enum ValueError {
    ParseIntError,
    ParseFloatError,
    ParseDateTimeError,
    InvalidSetting,
    InvalidSchedule,
}

impl View for Value {
    type V = ValueView;

    open spec fn view(&self) -> ValueView {
        match self {
            Value::Setting(v) => ValueView::Setting(*v),
            Value::Number(v) => ValueView::Number(*v),
            Value::Float { raw, divisor } => ValueView::Float { raw: *raw, divisor: *divisor },
            Value::DateTime(t) => ValueView::DateTime(*t),
            Value::Schedule(rs) => ValueView::Schedule(rs@),
        }
    }
}

impl Datatype {
    /// A `Float` divides by a non-zero divisor.
    pub open spec fn wf(self) -> bool {
        match self {
            Datatype::Float(d) => d >= 1,
            _ => true,
        }
    }
}

/// Hours up to 24 and minutes up to 59.
pub open spec fn range_valid(r: ScheduleRange) -> bool {
    r.0 <= 24 && r.1 <= 59 && r.2 <= 24 && r.3 <= 59
}

pub open spec fn ranges_valid(rs: Seq<ScheduleRange>) -> bool {
    forall|i: int| 0 <= i < rs.len() ==> range_valid(#[trigger] rs[i])
}

/// The value is one of the datatype: same kind, and within its bounds.
pub open spec fn value_fits(dt: Datatype, v: ValueView) -> bool {
    match (dt, v) {
        (Datatype::Setting(max), ValueView::Setting(x)) => x <= max,
        (Datatype::Number, ValueView::Number(_)) => true,
        (Datatype::Float(d), ValueView::Float { raw: _, divisor }) => divisor == d,
        (Datatype::DateTime, ValueView::DateTime(t)) => t.wf(),
        (Datatype::Schedule, ValueView::Schedule(rs)) => ranges_valid(rs),
        _ => false,
    }
}

/// The value can be written as text.
pub open spec fn printable(v: ValueView) -> bool {
    match v {
        ValueView::Float { raw: _, divisor } => divisor >= 1,
        ValueView::DateTime(t) => t.valid() && t.year <= 9999,
        _ => true,
    }
}

/// `sh:sm-eh:em`.
pub open spec fn range_text(r: ScheduleRange) -> Seq<char> {
    decimal(r.0 as nat) + seq![':'] + decimal(r.1 as nat) + seq!['-'] + decimal(r.2 as nat)
        + seq![':'] + decimal(r.3 as nat)
}

/// The ranges' texts, separated by commas.
pub open spec fn schedule_text(rs: Seq<ScheduleRange>) -> Seq<char>
    decreases rs.len(),
{
    if rs.len() == 0 {
        Seq::<char>::empty()
    } else if rs.len() == 1 {
        range_text(rs[0])
    } else {
        range_text(rs[0]) + seq![','] + schedule_text(rs.drop_first())
    }
}

/// The text form of a value.
pub open spec fn value_text(v: ValueView) -> Seq<char> {
    match v {
        ValueView::Setting(x) => decimal(x as nat),
        ValueView::Number(x) => decimal(x as nat),
        ValueView::Float { raw, divisor } => fixed_text(raw as int, divisor as nat),
        ValueView::DateTime(t) => t.text(),
        ValueView::Schedule(rs) => schedule_text(rs),
    }
}

/// Reading one `sh:sm-eh:em` range.
pub open spec fn range_from_text(p: Seq<char>) -> Result<ScheduleRange, ValueError> {
    let c1 = char_from(p, ':', 0);
    if c1 >= p.len() {
        Err(ValueError::InvalidSchedule)
    } else {
        let rest = p.subrange(c1 + 1, p.len() as int);
        let c2 = char_from(rest, '-', 0);
        if c2 >= rest.len() {
            Err(ValueError::InvalidSchedule)
        } else {
            let rest2 = rest.subrange(c2 + 1, rest.len() as int);
            let c3 = char_from(rest2, ':', 0);
            if c3 >= rest2.len() {
                Err(ValueError::InvalidSchedule)
            } else {
                match (
                    parse_unsigned(p.subrange(0, c1), 255),
                    parse_unsigned(rest.subrange(0, c2), 255),
                    parse_unsigned(rest2.subrange(0, c3), 255),
                    parse_unsigned(rest2.subrange(c3 + 1, rest2.len() as int), 255),
                ) {
                    (Some(a), Some(b), Some(c), Some(d)) => {
                        let r = (a as u8, b as u8, c as u8, d as u8);
                        if range_valid(r) {
                            Ok(r)
                        } else {
                            Err(ValueError::InvalidSchedule)
                        }
                    },
                    _ => Err(ValueError::ParseIntError),
                }
            }
        }
    }
}

/// Reading one or more comma-separated ranges, the first error winning.
pub open spec fn ranges_from_text(s: Seq<char>) -> Result<Seq<ScheduleRange>, ValueError>
    decreases s.len(),
{
    let c = char_from(s, ',', 0);
    match range_from_text(s.subrange(0, c)) {
        Err(e) => Err(e),
        Ok(r) => if 0 <= c < s.len() {
            match ranges_from_text(s.subrange(c + 1, s.len() as int)) {
                Ok(rs) => Ok(seq![r] + rs),
                Err(e) => Err(e),
            }
        } else {
            Ok(seq![r])
        },
    }
}

/// Reading a schedule: the empty text is the empty schedule, any other text
/// holds one or more ranges.
pub open spec fn schedule_from_text(s: Seq<char>) -> Result<Seq<ScheduleRange>, ValueError> {
    if s.len() == 0 {
        Ok(Seq::<ScheduleRange>::empty())
    } else {
        ranges_from_text(s)
    }
}

/// Reading the text form of a value of the datatype.
pub open spec fn value_from_text(s: Seq<char>, dt: Datatype) -> Result<ValueView, ValueError> {
    match dt {
        Datatype::Setting(max) => match parse_unsigned(s, 255) {
            None => Err(ValueError::ParseIntError),
            Some(v) => if v > max {
                Err(ValueError::InvalidSetting)
            } else {
                Ok(ValueView::Setting(v as u8))
            },
        },
        Datatype::Number => match parse_unsigned(s, 65535) {
            None => Err(ValueError::ParseIntError),
            Some(v) => Ok(ValueView::Number(v as u16)),
        },
        Datatype::Float(d) => match parse_fixed(s, d as nat) {
            None => Err(ValueError::ParseFloatError),
            Some(r) => Ok(ValueView::Float { raw: r as i16, divisor: d }),
        },
        Datatype::DateTime => match datetime_from_text(s) {
            None => Err(ValueError::ParseDateTimeError),
            Some(t) => Ok(ValueView::DateTime(t)),
        },
        Datatype::Schedule => match schedule_from_text(s) {
            Ok(rs) => Ok(ValueView::Schedule(rs)),
            Err(e) => Err(e),
        },
    }
}

/// The value that stands for zero in each datatype.
pub open spec fn default_value(dt: Datatype) -> ValueView {
    match dt {
        Datatype::Setting(_) => ValueView::Setting(0),
        Datatype::Number => ValueView::Number(0),
        Datatype::Float(d) => ValueView::Float { raw: 0, divisor: d },
        Datatype::DateTime => ValueView::DateTime(
            DateTime { year: 1970, month: 1, day: 1, hour: 0, minute: 0, second: 0 },
        ),
        Datatype::Schedule => ValueView::Schedule(seq![(0u8, 0u8, 0u8, 0u8)]),
    }
}

proof fn lemma_split_at(a: Seq<char>, c: char, b: Seq<char>)
    requires
        all_digits(a),
        !is_digit(c),
    ensures
        char_from(a + seq![c] + b, c, 0) == a.len(),
        (a + seq![c] + b).subrange(0, a.len() as int) == a,
        (a + seq![c] + b).subrange(a.len() as int + 1, (a + seq![c] + b).len() as int) == b,
{
    let s = a + seq![c] + b;
    assert forall|t: int| 0 <= t < a.len() implies s[t] != c by {
        assert(s[t] == a[t]);
        assert(is_digit(a[t]));
    }
    lemma_char_from_skip(s, c, 0, a.len() as int);
    assert(s[a.len() as int] == c);
    assert(s.subrange(0, a.len() as int) =~= a);
    assert(s.subrange(a.len() as int + 1, s.len() as int) =~= b);
}

proof fn lemma_range_text_round_trip(r: ScheduleRange)
    requires
        range_valid(r),
    ensures
        range_from_text(range_text(r)) == Ok::<ScheduleRange, ValueError>(r),
        forall|t: int| 0 <= t < range_text(r).len() ==> range_text(r)[t] != ',',
{
    let d0 = decimal(r.0 as nat);
    let d1 = decimal(r.1 as nat);
    let d2 = decimal(r.2 as nat);
    let d3 = decimal(r.3 as nat);
    lemma_decimal(r.0 as nat);
    lemma_decimal(r.1 as nat);
    lemma_decimal(r.2 as nat);
    lemma_decimal(r.3 as nat);
    let p = range_text(r);
    let rest = d1 + seq!['-'] + d2 + seq![':'] + d3;
    let rest2 = d2 + seq![':'] + d3;
    assert(p =~= d0 + seq![':'] + rest);
    assert(rest =~= d1 + seq!['-'] + rest2);
    lemma_split_at(d0, ':', rest);
    lemma_split_at(d1, '-', rest2);
    lemma_split_at(d2, ':', d3);
    lemma_parse_decimal(r.0 as nat, 255);
    lemma_parse_decimal(r.1 as nat, 255);
    lemma_parse_decimal(r.2 as nat, 255);
    lemma_parse_decimal(r.3 as nat, 255);
    assert forall|t: int| 0 <= t < p.len() implies p[t] != ',' by {
        if t < d0.len() {
            assert(is_digit(d0[t]));
        } else if t > d0.len() {
            let u = t - d0.len() - 1;
            assert(p[t] == rest[u]);
            if u < d1.len() {
                assert(is_digit(d1[u]));
            } else if u > d1.len() {
                let w = u - d1.len() - 1;
                assert(rest[u] == rest2[w]);
                if w < d2.len() {
                    assert(is_digit(d2[w]));
                } else if w > d2.len() {
                    assert(is_digit(d3[w - d2.len() - 1]));
                }
            }
        }
    }
}

proof fn lemma_schedule_text_round_trip(rs: Seq<ScheduleRange>)
    requires
        rs.len() > 0,
        ranges_valid(rs),
    ensures
        ranges_from_text(schedule_text(rs)) == Ok::<Seq<ScheduleRange>, ValueError>(rs),
    decreases rs.len(),
{
    let r = rs[0];
    let rt = range_text(r);
    lemma_range_text_round_trip(r);
    let s = schedule_text(rs);
    if rs.len() == 1 {
        lemma_char_from_skip(s, ',', 0, s.len() as int);
        assert(s.subrange(0, s.len() as int) =~= s);
        assert(seq![r] =~= rs);
    } else {
        let rest = rs.drop_first();
        assert(ranges_valid(rest)) by {
            assert forall|i: int| 0 <= i < rest.len() implies range_valid(#[trigger] rest[i]) by {
                assert(rest[i] == rs[i + 1]);
            }
        }
        lemma_schedule_text_round_trip(rest);
        assert forall|t: int| 0 <= t < rt.len() implies s[t] != ',' by {
            assert(s[t] == rt[t]);
        }
        lemma_char_from_skip(s, ',', 0, rt.len() as int);
        assert(s[rt.len() as int] == ',');
        assert(s.subrange(0, rt.len() as int) =~= rt);
        assert(s.subrange(rt.len() as int + 1, s.len() as int) =~= schedule_text(rest));
        assert(seq![r] + rest =~= rs);
    }
}

proof fn lemma_schedule_text_ends(rs: Seq<ScheduleRange>)
    requires
        rs.len() > 0,
    ensures
        schedule_text(rs).len() > 0,
        is_digit(schedule_text(rs)[0]),
        is_digit(schedule_text(rs).last()),
    decreases rs.len(),
{
    let r = rs[0];
    lemma_decimal(r.0 as nat);
    lemma_decimal(r.3 as nat);
    let rt = range_text(r);
    let d3 = decimal(r.3 as nat);
    assert(rt[0] == decimal(r.0 as nat)[0]);
    assert(rt.last() == d3.last());
    assert(is_digit(d3[d3.len() - 1]));
    if rs.len() > 1 {
        lemma_schedule_text_ends(rs.drop_first());
        let t = schedule_text(rs.drop_first());
        assert(schedule_text(rs).last() == t.last());
    }
}

/// Text of a value that is not empty starts and ends with something other
/// than a space.
pub proof fn lemma_value_text_ends(v: ValueView)
    requires
        printable(v),
        !(v is DateTime),
        value_text(v).len() > 0,
    ensures
        value_text(v)[0] != ' ',
        value_text(v).last() != ' ',
{
    match v {
        ValueView::Setting(x) => {
            lemma_decimal(x as nat);
            assert(is_digit(decimal(x as nat)[decimal(x as nat).len() - 1]));
        },
        ValueView::Number(x) => {
            lemma_decimal(x as nat);
            assert(is_digit(decimal(x as nat)[decimal(x as nat).len() - 1]));
        },
        ValueView::Float { raw, divisor } => {
            let a = crate::fixed::abs(raw as int);
            let k = fixed_scale(a, divisor as nat);
            let q = crate::fixed::round_nat(a * crate::text::pow10(k), divisor as nat);
            let i = q / crate::text::pow10(k);
            let f = q % crate::text::pow10(k);
            lemma_decimal(i);
            lemma_padded(f, k);
            let t = value_text(v);
            let d = decimal(i);
            assert(is_digit(d[0]));
            assert(is_digit(d[d.len() - 1]));
            if k > 0 {
                assert(is_digit(padded(f, k)[k - 1]));
                assert(t.last() == padded(f, k).last());
            } else {
                assert(t.last() == d.last());
            }
        },
        ValueView::Schedule(rs) => {
            if rs.len() == 0 {
                assert(schedule_text(rs).len() == 0);
            }
            lemma_schedule_text_ends(rs);
        },
        ValueView::DateTime(_) => {},
    }
}

/// Reading the text form of a value gives the value back; so writing what
/// was read from such text gives the same text. Dates are left out, whose
/// text chrono writes and reads.
pub proof fn lemma_text_round_trip(v: ValueView, dt: Datatype)
    requires
        dt.wf(),
        value_fits(dt, v),
        !(v is DateTime),
    ensures
        value_from_text(value_text(v), dt) == Ok::<ValueView, ValueError>(v),
{
    match v {
        ValueView::Setting(x) => {
            lemma_parse_decimal(x as nat, 255);
        },
        ValueView::Number(x) => {
            lemma_parse_decimal(x as nat, 65535);
        },
        ValueView::Float { raw, divisor } => {
            lemma_fixed_round_trip(raw as int, divisor as nat);
        },
        ValueView::Schedule(rs) => {
            if rs.len() > 0 {
                lemma_schedule_text_round_trip(rs);
            } else {
                assert(rs =~= Seq::<ScheduleRange>::empty());
            }
        },
        ValueView::DateTime(_) => {},
    }
}

/// Text that a value writes reads back as that value, and writing what was
/// read gives the same text again.
pub proof fn lemma_canonical_text(s: Seq<char>, v: ValueView, dt: Datatype)
    requires
        dt.wf(),
        value_fits(dt, v),
        !(v is DateTime),
        s == value_text(v),
    ensures
        value_from_text(s, dt) matches Ok(w) && value_text(w) == s,
{
    lemma_text_round_trip(v, dt);
}

/// Position of the first `c` in `s[lo..hi]`, or `hi`.
pub fn find_char(s: &Vec<char>, c: char, lo: usize, hi: usize) -> (r: usize)
    requires
        lo <= hi <= s@.len(),
    ensures
        lo <= r <= hi,
        r - lo == char_from(s@.subrange(lo as int, hi as int), c, 0),
{
    let ghost t = s@.subrange(lo as int, hi as int);
    let mut i = lo;
    while i < hi && s[i] != c
        invariant
            lo <= i <= hi <= s@.len(),
            t == s@.subrange(lo as int, hi as int),
            char_from(t, c, 0) == char_from(t, c, i - lo),
        decreases hi - i,
    {
        i += 1;
    }
    i
}

/// Read one `sh:sm-eh:em` range from `s[lo..hi]`.
#[verifier::rlimit(40)]
fn parse_range(s: &Vec<char>, lo: usize, hi: usize) -> (r: Result<ScheduleRange, ValueError>)
    requires
        lo <= hi <= s@.len(),
    ensures
        r == range_from_text(s@.subrange(lo as int, hi as int)),
{
    let ghost p = s@.subrange(lo as int, hi as int);
    let c1 = find_char(s, ':', lo, hi);
    if c1 == hi {
        return Err(ValueError::InvalidSchedule);
    }
    let ghost rest = p.subrange(c1 - lo + 1, p.len() as int);
    assert(rest =~= s@.subrange(c1 + 1, hi as int));
    let c2 = find_char(s, '-', c1 + 1, hi);
    if c2 == hi {
        return Err(ValueError::InvalidSchedule);
    }
    let ghost rest2 = rest.subrange(c2 - c1, rest.len() as int);
    assert(rest2 =~= s@.subrange(c2 + 1, hi as int));
    let c3 = find_char(s, ':', c2 + 1, hi);
    if c3 == hi {
        return Err(ValueError::InvalidSchedule);
    }
    assert(p.subrange(0, c1 - lo) =~= s@.subrange(lo as int, c1 as int));
    assert(rest.subrange(0, c2 - c1 - 1) =~= s@.subrange(c1 + 1, c2 as int));
    assert(rest2.subrange(0, c3 - c2 - 1) =~= s@.subrange(c2 + 1, c3 as int));
    assert(rest2.subrange(c3 - c2, rest2.len() as int) =~= s@.subrange(c3 + 1, hi as int));
    let sh = parse_unsigned_at(s, lo, c1, 255);
    let sm = parse_unsigned_at(s, c1 + 1, c2, 255);
    let eh = parse_unsigned_at(s, c2 + 1, c3, 255);
    let em = parse_unsigned_at(s, c3 + 1, hi, 255);
    match (sh, sm, eh, em) {
        (Some(a), Some(b), Some(c), Some(d)) => {
            let r = (a as u8, b as u8, c as u8, d as u8);
            if r.0 <= 24 && r.1 <= 59 && r.2 <= 24 && r.3 <= 59 {
                Ok(r)
            } else {
                Err(ValueError::InvalidSchedule)
            }
        },
        _ => Err(ValueError::ParseIntError),
    }
}

/// `acc` put in front of the ranges of `r`.
pub open spec fn prepend(
    acc: Seq<ScheduleRange>,
    r: Result<Seq<ScheduleRange>, ValueError>,
) -> Result<Seq<ScheduleRange>, ValueError> {
    match r {
        Ok(rs) => Ok(acc + rs),
        Err(e) => Err(e),
    }
}

/// Read comma-separated ranges.
fn parse_schedule(s: &Vec<char>) -> (r: Result<Vec<ScheduleRange>, ValueError>)
    ensures
        match r {
            Ok(v) => schedule_from_text(s@) == Ok::<Seq<ScheduleRange>, ValueError>(v@)
                && ranges_valid(v@),
            Err(e) => schedule_from_text(s@) == Err::<Seq<ScheduleRange>, ValueError>(e),
        },
{
    let n = s.len();
    let mut acc: Vec<ScheduleRange> = Vec::new();
    if n == 0 {
        assert(acc@ =~= Seq::<ScheduleRange>::empty());
        return Ok(acc);
    }
    let mut pos: usize = 0;
    assert(s@.subrange(0, n as int) =~= s@);
    loop
        invariant
            0 < n == s@.len(),
            pos <= n,
            schedule_from_text(s@) == prepend(acc@, ranges_from_text(s@.subrange(pos as int, n as int))),
            ranges_valid(acc@),
        decreases n - pos,
    {
        let ghost t = s@.subrange(pos as int, n as int);
        let c = find_char(s, ',', pos, n);
        assert(t.subrange(0, c - pos) =~= s@.subrange(pos as int, c as int));
        match parse_range(s, pos, c) {
            Err(e) => {
                return Err(e);
            },
            Ok(r) => {
                let ghost before = acc@;
                acc.push(r);
                if c == n {
                    assert(acc@ =~= before + seq![r]);
                    return Ok(acc);
                }
                assert(t.subrange(c - pos + 1, t.len() as int) =~= s@.subrange(c + 1, n as int));
                let ghost next = ranges_from_text(s@.subrange(c + 1, n as int));
                assert(prepend(before, ranges_from_text(t)) == prepend(acc@, next)) by {
                    match next {
                        Ok(rs) => {
                            assert(before + (seq![r] + rs) =~= acc@ + rs);
                        },
                        Err(_) => {},
                    }
                }
                pos = c + 1;
            },
        }
    }
}

/// Append `sh:sm-eh:em`.
fn push_range(out: &mut Vec<char>, r: ScheduleRange)
    ensures
        final(out)@ == old(out)@ + range_text(r),
{
    push_decimal(out, r.0 as u64);
    out.push(':');
    push_decimal(out, r.1 as u64);
    out.push('-');
    push_decimal(out, r.2 as u64);
    out.push(':');
    push_decimal(out, r.3 as u64);
    assert(final(out)@ =~= old(out)@ + range_text(r));
}

/// Append the text of the ranges from index `from` on.
fn push_schedule(out: &mut Vec<char>, rs: &Vec<ScheduleRange>, from: usize)
    requires
        from <= rs@.len(),
    ensures
        final(out)@ == old(out)@ + schedule_text(rs@.subrange(from as int, rs@.len() as int)),
    decreases rs@.len() - from,
{
    let ghost t = rs@.subrange(from as int, rs@.len() as int);
    if from == rs.len() {
        assert(old(out)@ + schedule_text(t) =~= old(out)@);
    } else if from + 1 == rs.len() {
        push_range(out, rs[from]);
    } else {
        push_range(out, rs[from]);
        out.push(',');
        push_schedule(out, rs, from + 1);
        assert(t.drop_first() =~= rs@.subrange(from + 1, rs@.len() as int));
        assert(final(out)@ =~= old(out)@ + schedule_text(t));
    }
}

impl Value {
    /// Read the text form of a value of the datatype.
    pub fn from_str(s: &str, datatype: Datatype) -> (r: Result<Value, ValueError>)
        requires
            datatype.wf(),
        ensures
            match r {
                Ok(v) => value_from_text(s@, datatype) == Ok::<ValueView, ValueError>(v@)
                    && value_fits(datatype, v@),
                Err(e) => value_from_text(s@, datatype) == Err::<ValueView, ValueError>(e),
            },
    {
        let chars = chars_of(s);
        assert(chars@.subrange(0, chars@.len() as int) =~= s@);
        match datatype {
            Datatype::Setting(max) => match parse_unsigned_at(&chars, 0, chars.len(), 255) {
                None => Err(ValueError::ParseIntError),
                Some(v) => if v > max as u64 {
                    Err(ValueError::InvalidSetting)
                } else {
                    Ok(Value::Setting(v as u8))
                },
            },
            Datatype::Number => match parse_unsigned_at(&chars, 0, chars.len(), 65535) {
                None => Err(ValueError::ParseIntError),
                Some(v) => Ok(Value::Number(v as u16)),
            },
            Datatype::Float(d) => match parse_fixed_exec(&chars, d) {
                None => Err(ValueError::ParseFloatError),
                Some(raw) => Ok(Value::Float { raw, divisor: d }),
            },
            Datatype::DateTime => match parse_datetime(s) {
                None => Err(ValueError::ParseDateTimeError),
                Some(t) => Ok(Value::DateTime(t)),
            },
            Datatype::Schedule => match parse_schedule(&chars) {
                Ok(rs) => Ok(Value::Schedule(rs)),
                Err(e) => Err(e),
            },
        }
    }

    /// The text form of the value.
    pub fn to_string(&self) -> (r: String)
        requires
            printable(self@),
        ensures
            r@ == value_text(self@),
    {
        match self {
            Value::DateTime(t) => t.to_text(),
            _ => {
                let mut out: Vec<char> = Vec::new();
                match self {
                    Value::Setting(v) => push_decimal(&mut out, *v as u64),
                    Value::Number(v) => push_decimal(&mut out, *v as u64),
                    Value::Float { raw, divisor } => push_fixed(&mut out, *raw, *divisor),
                    Value::Schedule(rs) => {
                        push_schedule(&mut out, rs, 0);
                        assert(rs@.subrange(0, rs@.len() as int) =~= rs@);
                    },
                    Value::DateTime(_) => {},
                }
                assert(out@ =~= value_text(self@));
                string_of(&out)
            },
        }
    }

    /// The value that stands for zero in the datatype: the Unix epoch for a
    /// date and a single empty range for a schedule.
    pub fn default_for_datatype(datatype: Datatype) -> (r: Value)
        ensures
            r@ == default_value(datatype),
    {
        match datatype {
            Datatype::Setting(_) => Value::Setting(0),
            Datatype::Number => Value::Number(0),
            Datatype::Float(d) => Value::Float { raw: 0, divisor: d },
            Datatype::DateTime => Value::DateTime(unix_epoch()),
            Datatype::Schedule => {
                let r = Value::Schedule(vec![(0u8, 0u8, 0u8, 0u8)]);
                assert(r@ == default_value(datatype)) by {
                    if let Value::Schedule(rs) = r {
                        assert(rs@ =~= seq![(0u8, 0u8, 0u8, 0u8)]);
                    }
                }
                r
            },
        }
    }
}

} // verus!
