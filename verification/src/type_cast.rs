//! Casting values to the types a schema asks for.

use crate::datetime::{
    custom_nanos, from_nanos, micros_of_nanos, parse_custom, parse_rfc2822, parse_rfc3339,
    rfc2822_nanos, rfc3339_nanos, rfc3339_text, DateTime, TimestampResolution,
};
use crate::decimal::{
    decimal, itoa_i64, itoa_u64, parse_decimal, parse_signed, parse_signed_decimal,
    parse_unsigned, signed_decimal,
};
use crate::text::{debug_repr, debug_text, join_slices, join_strings, joined, slices_text, strings_text};
use vstd::prelude::*;
use vstd::slice::slice_to_vec;
use vstd::string::*;

verus! {

/// Why a cast failed.
#[derive(Clone, Copy, Debug, PartialEq, Eq, Structural)]
pub enum CastError {
    /// The target type does not take values of this kind.
    Unsupported,
    /// The text is not a value of the target type.
    InvalidValue,
    /// The number cannot be represented by the target type.
    OutOfRange,
    /// An array holds an array or an object.
    Nested,
    /// The text matches none of the parser's formats.
    NoFormatMatches,
    /// The timestamp lies beyond what a point in time can hold.
    TimestampOutOfRange,
    /// The parser has no resolution for integer timestamps.
    NoTimestampResolution,
    /// The point in time lies outside the years that can be rendered.
    Unprintable,
}

/// A failed cast: why it failed, and the message for the user.
#[derive(Clone, Debug, PartialEq, Eq)]
pub struct CastFailure {
    /// Why the cast failed.
    pub kind: CastError,
    /// The message for the user.
    pub message: String,
}

impl CastFailure {
    /// The message for the user.
    pub fn to_string(&self) -> (message: String)
        ensures
            message@ == self.message@,
    {
        self.message.clone()
    }
}

/// A format that can be used to read a point in time from text.
#[derive(Clone, Debug, PartialEq, Eq)]
pub enum DateTimeFormat {
    /// RFC 2822.
    Rfc2822,
    /// RFC 3339.
    Rfc3339,
    /// A format of the user's own, given by its description.
    Custom {
        /// The description of the format.
        description: String,
    },
}

/// A format as plain values.
pub enum FormatView {
    /// RFC 2822.
    Rfc2822,
    /// RFC 3339.
    Rfc3339,
    /// A format of the user's own, given by its description.
    Custom(Seq<char>),
}

impl FormatView {
    /// The name of the format as messages spell it.
    pub open spec fn name(self) -> Seq<char> {
        match self {
            FormatView::Rfc2822 => "rfc2822"@,
            FormatView::Rfc3339 => "rfc3339"@,
            FormatView::Custom(description) => "custom<"@ + debug_repr(description) + ">"@,
        }
    }

    /// The nanoseconds since the epoch that `text` stands for in this
    /// format, if it matches.
    pub open spec fn nanos(self, text: Seq<char>) -> Option<i128> {
        match self {
            FormatView::Rfc2822 => rfc2822_nanos(text),
            FormatView::Rfc3339 => rfc3339_nanos(text),
            FormatView::Custom(description) => custom_nanos(description, text),
        }
    }

    /// The point in time that `text` stands for in this format, in
    /// microseconds since the epoch, if it matches and can be held.
    pub open spec fn read(self, text: Seq<char>) -> Option<int> {
        match self.nanos(text) {
            Some(nanos) => {
                let micros = micros_of_nanos(nanos as int);
                if i64::MIN <= micros <= i64::MAX {
                    Some(micros)
                } else {
                    None
                }
            },
            None => None,
        }
    }
}

impl View for DateTimeFormat {
    type V = FormatView;

    open spec fn view(&self) -> FormatView {
        match self {
            DateTimeFormat::Rfc2822 => FormatView::Rfc2822,
            DateTimeFormat::Rfc3339 => FormatView::Rfc3339,
            DateTimeFormat::Custom { description } => FormatView::Custom(description@),
        }
    }
}

impl DateTimeFormat {
    /// The name of the format as messages spell it.
    pub fn to_string(&self) -> (name: String)
        ensures
            name@ == self@.name(),
    {
        match self {
            DateTimeFormat::Rfc2822 => String::from_str("rfc2822"),
            DateTimeFormat::Rfc3339 => String::from_str("rfc3339"),
            DateTimeFormat::Custom { description } => {
                let mut out = String::from_str("custom<");
                let quoted = debug_text(description.as_str());
                out.append(quoted.as_str());
                out.append(">");
                out
            },
        }
    }

    /// Reads a point in time from text in this format.  `None` where the
    /// text does not match the format.
    pub fn parse(&self, s: &str) -> (time: Option<DateTime>)
        ensures
            match self@.read(s@) {
                Some(micros) => time is Some && time->0@ == micros,
                None => time is None,
            },
    {
        let nanos = match self {
            DateTimeFormat::Rfc2822 => parse_rfc2822(s),
            DateTimeFormat::Rfc3339 => parse_rfc3339(s),
            DateTimeFormat::Custom { description } => parse_custom(description.as_str(), s),
        };
        match nanos {
            Some(nanos) => from_nanos(nanos),
            None => None,
        }
    }
}

/// The formats held by a vector of formats.
pub open spec fn format_views(formats: Seq<DateTimeFormat>) -> Seq<FormatView> {
    Seq::new(formats.len(), |i: int| formats[i]@)
}

/// The names of the formats.
pub open spec fn format_names(formats: Seq<FormatView>) -> Seq<Seq<char>> {
    Seq::new(formats.len(), |i: int| formats[i].name())
}

/// What the first format that matches makes of the text, in microseconds
/// since the epoch.
pub open spec fn first_match(formats: Seq<FormatView>, text: Seq<char>) -> Option<int>
    decreases formats.len(),
{
    if formats.len() == 0 {
        None
    } else {
        match formats[0].read(text) {
            Some(micros) => Some(micros),
            None => first_match(formats.skip(1), text),
        }
    }
}

/// The name of a resolution as schemas spell it.
pub open spec fn resolution_name(resolution: TimestampResolution) -> Seq<char> {
    match resolution {
        TimestampResolution::Seconds => "unix_seconds"@,
        TimestampResolution::Millis => "unix_millis"@,
        TimestampResolution::Micros => "unix_micros"@,
    }
}

/// A parser of points in time as plain values.
pub struct ParserView {
    /// The unit of integer timestamps, if they are accepted.
    pub resolution: Option<TimestampResolution>,
    /// The formats text is tried against, in order.
    pub formats: Seq<FormatView>,
}

/// A failure as plain values: why, and the message.
pub type FailureView = (CastError, Seq<char>);

impl ParserView {
    /// The names of what the parser accepts: its resolution, if any, then
    /// its formats.
    pub open spec fn accepted(self) -> Seq<Seq<char>> {
        match self.resolution {
            Some(resolution) => seq![resolution_name(resolution)] + format_names(self.formats),
            None => format_names(self.formats),
        }
    }

    /// The names of what the parser accepts, separated by commas.
    pub open spec fn supported(self) -> Seq<char> {
        joined(self.accepted(), ","@)
    }

    /// What the parser makes of text: the reading of the first format
    /// that matches.
    pub open spec fn read(self, text: Seq<char>) -> Result<int, FailureView> {
        match first_match(self.formats, text) {
            Some(micros) => Ok(micros),
            None => Err(
                (
                    CastError::NoFormatMatches,
                    "Cannot cast `string` to `datetime` as it does not match any provided formats: "@
                        + "["@ + joined(format_names(self.formats), ", "@) + "]"@,
                ),
            ),
        }
    }

    /// What the parser makes of an integer timestamp.
    pub open spec fn convert(self, ts: i64) -> Result<int, FailureView> {
        match self.resolution {
            Some(resolution) => {
                let micros = ts * resolution.micros_per_unit();
                if i64::MIN <= micros <= i64::MAX {
                    Ok(micros)
                } else {
                    Err(
                        (
                            CastError::TimestampOutOfRange,
                            "Cannot cast timestamp to `datetime` as it goes beyond the bounds of the supported `datetime` range"@,
                        ),
                    )
                }
            },
            None => Err(
                (
                    CastError::NoTimestampResolution,
                    "Cannot cast timestamp to `datetime` as no timestamp resolution was provided by the schema"@,
                ),
            ),
        }
    }
}

/// Reads points in time from text and from integer timestamps.
#[derive(Clone, Debug, PartialEq, Eq)]
pub struct DateTimeParser {
    /// The unit of integer timestamps, if they are accepted.
    pub integer_timestamp_resolution: Option<TimestampResolution>,
    /// The formats text is tried against, in order.
    pub string_formats: Vec<DateTimeFormat>,
}

impl View for DateTimeParser {
    type V = ParserView;

    open spec fn view(&self) -> ParserView {
        ParserView {
            resolution: self.integer_timestamp_resolution,
            formats: format_views(self.string_formats@),
        }
    }
}

impl Default for DateTimeParser {
    /// A parser that accepts nothing yet.
    fn default() -> (parser: DateTimeParser)
        ensures
            parser@ == (ParserView { resolution: None, formats: Seq::empty() }),
    {
        let string_formats: Vec<DateTimeFormat> = Vec::new();
        assert(format_views(string_formats@) =~= Seq::<FormatView>::empty());
        DateTimeParser { integer_timestamp_resolution: None, string_formats }
    }
}

/// Builds a failure.
fn failure(kind: CastError, message: String) -> (result: CastFailure)
    ensures
        result.kind == kind,
        result.message@ == message@,
{
    CastFailure { kind, message }
}

impl DateTimeParser {
    /// The parser with integer timestamps accepted in the given unit.
    pub fn with_timestamp_resolution(self, res: TimestampResolution) -> (parser: DateTimeParser)
        ensures
            parser@ == (ParserView { resolution: Some(res), formats: self@.formats }),
    {
        let mut parser = self;
        parser.integer_timestamp_resolution = Some(res);
        parser
    }

    /// The parser with one more format to try text against.
    pub fn with_format(self, format: DateTimeFormat) -> (parser: DateTimeParser)
        ensures
            parser@ == (ParserView {
                resolution: self@.resolution,
                formats: self@.formats.push(format@),
            }),
    {
        let mut parser = self;
        parser.add_string(format);
        parser
    }

    /// Adds one more format to try text against.
    pub fn add_string(&mut self, format: DateTimeFormat)
        ensures
            final(self)@ == (ParserView {
                resolution: old(self)@.resolution,
                formats: old(self)@.formats.push(format@),
            }),
    {
        self.string_formats.push(format);
        assert(format_views(self.string_formats@) =~= format_views(old(self).string_formats@).push(
            format@,
        ));
    }

    /// The names of the formats, in order.
    fn format_names(&self) -> (names: Vec<String>)
        ensures
            strings_text(names@) == format_names(self@.formats),
    {
        let mut names: Vec<String> = Vec::new();
        let mut i: usize = 0;
        while i < self.string_formats.len()
            invariant
                i <= self.string_formats.len(),
                names@.len() == i,
                forall|k: int| 0 <= k < i ==> (#[trigger] names@[k])@ == self.string_formats@[k]@.name(),
            decreases self.string_formats.len() - i,
        {
            names.push(self.string_formats[i].to_string());
            i += 1;
        }
        assert(strings_text(names@) =~= format_names(self@.formats));
        names
    }

    /// The names of what the parser accepts, separated by commas: its
    /// resolution, if any, then its formats.
    pub fn supported_formats(&self) -> (text: String)
        ensures
            text@ == self@.supported(),
    {
        let mut elements: Vec<String> = Vec::new();
        match self.integer_timestamp_resolution {
            Some(resolution) => {
                elements.push(resolution.to_string());
            },
            None => {},
        }
        let ghost head = strings_text(elements@);
        let mut names = self.format_names();
        let ghost tail = strings_text(names@);
        elements.append(&mut names);
        assert(strings_text(elements@) =~= head + tail);
        assert(strings_text(elements@) =~= self@.accepted());
        join_strings(&elements, ",")
    }

    /// Reads a point in time from text: the reading of the first format
    /// that matches.  Text that matches no format is rejected.
    pub fn try_parse_str(&self, s: &str) -> (result: Result<DateTime, CastFailure>)
        ensures
            time_outcome(result) == self@.read(s@),
    {
        let ghost formats = self@.formats;
        let mut i: usize = 0;
        assert(formats.skip(0) =~= formats);
        while i < self.string_formats.len()
            invariant
                i <= self.string_formats.len(),
                formats == format_views(self.string_formats@),
                first_match(formats, s@) == first_match(formats.skip(i as int), s@),
            decreases self.string_formats.len() - i,
        {
            let ghost rest = formats.skip(i as int);
            assert(rest[0] == self.string_formats@[i as int]@);
            assert(rest.skip(1) =~= formats.skip(i + 1));
            match self.string_formats[i].parse(s) {
                Some(time) => {
                    return Ok(time);
                },
                None => {},
            }
            i += 1;
        }
        let mut message = String::from_str(
            "Cannot cast `string` to `datetime` as it does not match any provided formats: ",
        );
        message.append("[");
        let names = self.format_names();
        let list = join_strings(&names, ", ");
        message.append(list.as_str());
        message.append("]");
        Err(failure(CastError::NoFormatMatches, message))
    }

    /// Turns an integer timestamp into a point in time.  A parser without
    /// a resolution rejects all timestamps.
    pub fn try_convert_timestamp(&self, ts: i64) -> (result: Result<DateTime, CastFailure>)
        ensures
            time_outcome(result) == self@.convert(ts),
    {
        match self.integer_timestamp_resolution {
            Some(resolution) => match resolution.cast(ts) {
                Some(time) => Ok(time),
                None => Err(
                    failure(
                        CastError::TimestampOutOfRange,
                        String::from_str(
                            "Cannot cast timestamp to `datetime` as it goes beyond the bounds of the supported `datetime` range",
                        ),
                    ),
                ),
            },
            None => Err(
                failure(
                    CastError::NoTimestampResolution,
                    String::from_str(
                        "Cannot cast timestamp to `datetime` as no timestamp resolution was provided by the schema",
                    ),
                ),
            ),
        }
    }
}

/// The outcome of reading a point in time, as plain values.
pub open spec fn time_outcome(result: Result<DateTime, CastFailure>) -> Result<int, FailureView> {
    match result {
        Ok(time) => Ok(time@),
        Err(failure) => Err((failure.kind, failure.message@)),
    }
}

/// A typed value.
#[derive(Debug, PartialEq, Eq)]
pub enum Value {
    /// No value.
    Null,
    /// Text.
    Str(String),
    /// An unsigned integer.
    U64(u64),
    /// A signed integer.
    I64(i64),
    /// A floating point number, as its bit pattern.
    F64(u64),
    /// A boolean.
    Bool(bool),
    /// A point in time.
    DateTime(DateTime),
    /// An IP address, as the 128 bits of its IPv6 form.
    IpAddr(u128),
    /// Raw bytes.
    Bytes(Vec<u8>),
    /// Several values.
    Array(Vec<Value>),
}

/// A typed value as plain values.
pub enum ValueView {
    /// No value.
    Null,
    /// Text.
    Str(Seq<char>),
    /// An unsigned integer.
    U64(u64),
    /// A signed integer.
    I64(i64),
    /// A floating point number, as its bit pattern.
    F64(u64),
    /// A boolean.
    Bool(bool),
    /// A point in time, in microseconds since the epoch.
    DateTime(int),
    /// An IP address, as the 128 bits of its IPv6 form.
    IpAddr(u128),
    /// Raw bytes.
    Bytes(Seq<u8>),
    /// Several values.
    Array(Seq<ValueView>),
}

impl Value {
    /// The value as plain values, with an array shown as empty: what the
    /// value looks like as an element of an array.
    pub open spec fn shallow(&self) -> ValueView {
        match self {
            Value::Null => ValueView::Null,
            Value::Str(text) => ValueView::Str(text@),
            Value::U64(v) => ValueView::U64(*v),
            Value::I64(v) => ValueView::I64(*v),
            Value::F64(bits) => ValueView::F64(*bits),
            Value::Bool(v) => ValueView::Bool(*v),
            Value::DateTime(time) => ValueView::DateTime(time@),
            Value::IpAddr(address) => ValueView::IpAddr(*address),
            Value::Bytes(bytes) => ValueView::Bytes(bytes@),
            Value::Array(_) => ValueView::Array(Seq::empty()),
        }
    }
}

impl View for Value {
    type V = ValueView;

    /// The value as plain values.  The elements of an array are shown as
    /// they are; an array among them, which no cast produces, as empty.
    open spec fn view(&self) -> ValueView {
        match self {
            Value::Array(items) => ValueView::Array(
                Seq::new(items@.len(), |i: int| items@[i].shallow()),
            ),
            _ => self.shallow(),
        }
    }
}

/// What a text reads as where reading it is not this library's part: as a
/// floating point number and as an IP address.
#[derive(Clone, Copy, Debug, PartialEq, Eq, Structural)]
pub struct Readings {
    /// The bit pattern of the floating point number the text stands for,
    /// if it stands for one.
    pub float_bits: Option<u64>,
    /// The address the text stands for, if it stands for one, as the 128
    /// bits of its IPv6 form.
    pub ip: Option<u128>,
}

/// A value as it comes in, before it is cast.
///
/// Text comes with its readings, and a floating point number and an address
/// come with their renderings, so that a cast has at hand whatever it may
/// need of them.
#[derive(Debug, PartialEq, Eq)]
pub enum SourceValue {
    /// No value.
    Null,
    /// Text, and what it reads as.
    Str(String, Readings),
    /// An unsigned integer.
    U64(u64),
    /// A signed integer.
    I64(i64),
    /// A floating point number as its bit pattern, and its shortest
    /// rendering.
    F64(u64, String),
    /// A boolean.
    Bool(bool),
    /// A point in time.
    DateTime(DateTime),
    /// An IP address as the 128 bits of its IPv6 form, and its rendering.
    IpAddr(u128, String),
    /// Raw bytes.
    Bytes(Vec<u8>),
    /// Several values.
    Array(Vec<SourceValue>),
    /// A mapping.  What it holds is of no interest to a cast.
    Object,
}

/// A value as it comes in, as plain values.
pub enum SourceView {
    /// No value.
    Null,
    /// Text, and what it reads as.
    Str(Seq<char>, Readings),
    /// An unsigned integer.
    U64(u64),
    /// A signed integer.
    I64(i64),
    /// A floating point number and its shortest rendering.
    F64(u64, Seq<char>),
    /// A boolean.
    Bool(bool),
    /// A point in time, in microseconds since the epoch.
    DateTime(int),
    /// An IP address and its rendering.
    IpAddr(u128, Seq<char>),
    /// Raw bytes.
    Bytes(Seq<u8>),
    /// Several values.
    Array(Seq<SourceView>),
    /// A mapping.
    Object,
}

impl SourceValue {
    /// The value as plain values, with an array shown as empty: what the
    /// value looks like as an element of an array.
    pub open spec fn shallow(&self) -> SourceView {
        match self {
            SourceValue::Null => SourceView::Null,
            SourceValue::Str(text, readings) => SourceView::Str(text@, *readings),
            SourceValue::U64(v) => SourceView::U64(*v),
            SourceValue::I64(v) => SourceView::I64(*v),
            SourceValue::F64(bits, shortest) => SourceView::F64(*bits, shortest@),
            SourceValue::Bool(v) => SourceView::Bool(*v),
            SourceValue::DateTime(time) => SourceView::DateTime(time@),
            SourceValue::IpAddr(address, rendered) => SourceView::IpAddr(*address, rendered@),
            SourceValue::Bytes(bytes) => SourceView::Bytes(bytes@),
            SourceValue::Array(_) => SourceView::Array(Seq::empty()),
            SourceValue::Object => SourceView::Object,
        }
    }
}

impl View for SourceValue {
    type V = SourceView;

    /// The value as plain values.  The elements of an array are shown as
    /// they are; an array among them, which no cast looks into, as empty.
    open spec fn view(&self) -> SourceView {
        match self {
            SourceValue::Array(items) => SourceView::Array(
                Seq::new(items@.len(), |i: int| items@[i].shallow()),
            ),
            _ => self.shallow(),
        }
    }
}

impl SourceView {
    /// The name of the value's type as messages spell it.
    pub open spec fn display_name(self) -> Seq<char> {
        match self {
            SourceView::Null => "null"@,
            SourceView::Str(_, _) => "string"@,
            SourceView::U64(_) => "u64"@,
            SourceView::I64(_) => "i64"@,
            SourceView::F64(_, _) => "f64"@,
            SourceView::Bool(_) => "bool"@,
            SourceView::DateTime(_) => "datetime"@,
            SourceView::IpAddr(_, _) => "ip"@,
            SourceView::Bytes(_) => "bytes"@,
            SourceView::Array(_) => "array"@,
            SourceView::Object => "object"@,
        }
    }
}

impl SourceValue {
    /// The name of the value's type as messages spell it.
    pub fn display_name(&self) -> (name: &'static str)
        ensures
            name@ == self@.display_name(),
            name@ == self.shallow().display_name(),
    {
        match self {
            SourceValue::Null => "null",
            SourceValue::Str(_, _) => "string",
            SourceValue::U64(_) => "u64",
            SourceValue::I64(_) => "i64",
            SourceValue::F64(_, _) => "f64",
            SourceValue::Bool(_) => "bool",
            SourceValue::DateTime(_) => "datetime",
            SourceValue::IpAddr(_, _) => "ip",
            SourceValue::Bytes(_) => "bytes",
            SourceValue::Array(_) => "array",
            SourceValue::Object => "object",
        }
    }
}

/// The bytes that standard base64 text with padding decodes to, if the
/// text is that.
pub uninterp spec fn base64_standard(text: Seq<char>) -> Option<Seq<u8>>;

/// Wraps `base64::Engine::decode` on the `STANDARD` engine, whose result
/// is a function of the text alone.
#[verifier::external_body]
fn base64_decode(text: &str) -> (bytes: Option<Vec<u8>>)
    ensures
        match base64_standard(text@) {
            Some(decoded) => bytes is Some && bytes->0@ == decoded,
            None => bytes is None,
        },
{
    base64::Engine::decode(&base64::engine::general_purpose::STANDARD, text).ok()
}

/// The core types values can be cast to.
#[derive(Clone, Debug, PartialEq, Eq)]
pub enum TypeCast {
    /// Cast the input value to a `string`.
    String,
    /// Cast the input value to a `u64`.
    U64,
    /// Cast the input value to a `i64`.
    I64,
    /// Cast the input value to a floating point number.
    F64,
    /// Cast the input value to `bytes`.
    Bytes,
    /// Cast the input value to a `bool`.
    Bool,
    /// Cast the input value to a `datetime`.
    DateTime(DateTimeParser),
    /// Cast the input value to an `ip`.
    IpAddr,
}

/// A cast target as plain values.
pub enum CastView {
    /// Text.
    String,
    /// Unsigned integers.
    U64,
    /// Signed integers.
    I64,
    /// Floating point numbers.
    F64,
    /// Raw bytes.
    Bytes,
    /// Booleans.
    Bool,
    /// Points in time, read by the given parser.
    DateTime(ParserView),
    /// IP addresses.
    IpAddr,
}

impl View for TypeCast {
    type V = CastView;

    open spec fn view(&self) -> CastView {
        match self {
            TypeCast::String => CastView::String,
            TypeCast::U64 => CastView::U64,
            TypeCast::I64 => CastView::I64,
            TypeCast::F64 => CastView::F64,
            TypeCast::Bytes => CastView::Bytes,
            TypeCast::Bool => CastView::Bool,
            TypeCast::DateTime(parser) => CastView::DateTime(parser@),
            TypeCast::IpAddr => CastView::IpAddr,
        }
    }
}

/// The outcome of a cast as plain values.
pub type Outcome = Result<ValueView, FailureView>;

/// The field a cast is for, as messages show it: the keys that lead to it
/// joined by dots, in quotes.
pub open spec fn field_text(keys: Seq<&str>) -> Seq<char> {
    debug_repr(joined(slices_text(keys), "."@))
}

/// "Cannot cast `from` to `to` for field (...)".
pub open spec fn bail_text(from: Seq<char>, to: Seq<char>, keys: Seq<&str>) -> Seq<char> {
    "Cannot cast `"@ + from + "` to `"@ + to + "` for field ("@ + field_text(keys) + ")"@
}

/// Why a number does not fit its target.
pub open spec fn range_reason() -> Seq<char> {
    "because the input value cannot be safely represented by the target type"@
}

/// Why an array is not cast.
pub open spec fn nested_reason() -> Seq<char> {
    "due to field containing an array of arrays or array of objects"@
}

impl CastView {
    /// The name of the target type as messages spell it.
    pub open spec fn display_name(self) -> Seq<char> {
        match self {
            CastView::String => "string"@,
            CastView::U64 => "u64"@,
            CastView::I64 => "i64"@,
            CastView::F64 => "f64"@,
            CastView::Bytes => "bytes"@,
            CastView::Bool => "bool"@,
            CastView::DateTime(parser) => "datetime<"@ + parser.supported() + ">"@,
            CastView::IpAddr => "ip"@,
        }
    }

    /// The failure of a cast that the target does not take.
    pub open spec fn bail(self, from: Seq<char>, keys: Seq<&str>) -> Outcome {
        Err((CastError::Unsupported, bail_text(from, self.display_name(), keys)))
    }

    /// The failure of a cast of text that is no value of the target.
    pub open spec fn invalid(self, text: Seq<char>, keys: Seq<&str>) -> Outcome {
        Err(
            (
                CastError::InvalidValue,
                bail_text("string"@, self.display_name(), keys)
                    + " due to an invalid value being provided: "@ + debug_repr(text),
            ),
        )
    }

    /// The failure of a cast for the given reason.
    pub open spec fn detail(
        self,
        kind: CastError,
        from: Seq<char>,
        reason: Seq<char>,
        keys: Seq<&str>,
    ) -> Outcome {
        Err((kind, bail_text(from, self.display_name(), keys) + " "@ + reason))
    }

    /// The outcome of casting text.
    pub open spec fn cast_text(self, text: Seq<char>, readings: Readings, keys: Seq<&str>) -> Outcome {
        match self {
            CastView::String => Ok(ValueView::Str(text)),
            CastView::U64 => match parse_unsigned(text, u64::MAX as nat) {
                Some(n) => Ok(ValueView::U64(n as u64)),
                None => self.invalid(text, keys),
            },
            CastView::I64 => match parse_signed(text) {
                Some(n) => Ok(ValueView::I64(n as i64)),
                None => self.invalid(text, keys),
            },
            CastView::F64 => match readings.float_bits {
                Some(bits) => Ok(ValueView::F64(bits)),
                None => self.invalid(text, keys),
            },
            CastView::Bool => if text == "true"@ {
                Ok(ValueView::Bool(true))
            } else if text == "false"@ {
                Ok(ValueView::Bool(false))
            } else {
                self.invalid(text, keys)
            },
            CastView::DateTime(parser) => match parser.read(text) {
                Ok(micros) => Ok(ValueView::DateTime(micros)),
                Err(failure) => Err(failure),
            },
            CastView::IpAddr => match readings.ip {
                Some(address) => Ok(ValueView::IpAddr(address)),
                None => self.invalid(text, keys),
            },
            CastView::Bytes => match base64_standard(text) {
                Some(bytes) => Ok(ValueView::Bytes(bytes)),
                None => self.invalid(text, keys),
            },
        }
    }

    /// The outcome of casting an unsigned integer.
    pub open spec fn cast_u64(self, v: u64, keys: Seq<&str>) -> Outcome {
        match self {
            CastView::U64 => Ok(ValueView::U64(v)),
            CastView::I64 => if v <= i64::MAX {
                Ok(ValueView::I64(v as i64))
            } else {
                self.detail(CastError::OutOfRange, "u64"@, range_reason(), keys)
            },
            CastView::String => Ok(ValueView::Str(decimal(v as nat))),
            CastView::DateTime(parser) => if v <= i64::MAX {
                match parser.convert(v as i64) {
                    Ok(micros) => Ok(ValueView::DateTime(micros)),
                    Err(failure) => Err(failure),
                }
            } else {
                self.detail(CastError::OutOfRange, "u64"@, range_reason(), keys)
            },
            _ => self.bail("u64"@, keys),
        }
    }

    /// The outcome of casting a signed integer.
    pub open spec fn cast_i64(self, v: i64, keys: Seq<&str>) -> Outcome {
        match self {
            CastView::I64 => Ok(ValueView::I64(v)),
            CastView::U64 => if v >= 0 {
                Ok(ValueView::U64(v as u64))
            } else {
                self.detail(CastError::OutOfRange, "i64"@, range_reason(), keys)
            },
            CastView::String => Ok(ValueView::Str(signed_decimal(v as int))),
            CastView::DateTime(parser) => match parser.convert(v) {
                Ok(micros) => Ok(ValueView::DateTime(micros)),
                Err(failure) => Err(failure),
            },
            _ => self.bail("i64"@, keys),
        }
    }

    /// The outcome of casting a floating point number with the given bit
    /// pattern and shortest rendering.
    pub open spec fn cast_float(self, bits: u64, shortest: Seq<char>, keys: Seq<&str>) -> Outcome {
        match self {
            CastView::F64 => Ok(ValueView::F64(bits)),
            CastView::String => Ok(ValueView::Str(shortest)),
            _ => self.bail("f64"@, keys),
        }
    }

    /// The outcome of casting a boolean.
    pub open spec fn cast_bool(self, v: bool, keys: Seq<&str>) -> Outcome {
        match self {
            CastView::Bool => Ok(ValueView::Bool(v)),
            CastView::String => Ok(
                ValueView::Str(
                    if v {
                        "true"@
                    } else {
                        "false"@
                    },
                ),
            ),
            _ => self.bail("bool"@, keys),
        }
    }

    /// The outcome of casting a point in time.
    pub open spec fn cast_datetime(self, micros: int, keys: Seq<&str>) -> Outcome {
        match self {
            CastView::DateTime(_) => Ok(ValueView::DateTime(micros)),
            CastView::String => match rfc3339_text((micros * 1_000) as i128) {
                Some(text) => Ok(ValueView::Str(text)),
                None => Err(
                    (
                        CastError::Unprintable,
                        "Cannot format datetime as is beyond what the format supports rendering"@
                            + " for field ("@ + field_text(keys) + ")"@,
                    ),
                ),
            },
            _ => self.bail("datetime"@, keys),
        }
    }

    /// The outcome of casting an address with the given rendering.
    pub open spec fn cast_ip(self, address: u128, rendered: Seq<char>, keys: Seq<&str>) -> Outcome {
        match self {
            CastView::IpAddr => Ok(ValueView::IpAddr(address)),
            CastView::String => Ok(ValueView::Str(rendered)),
            _ => self.bail("ip"@, keys),
        }
    }

    /// The outcome of casting a value that is not an array.
    pub open spec fn cast_single(self, value: SourceView, keys: Seq<&str>) -> Outcome {
        match value {
            SourceView::Null => Ok(ValueView::Null),
            SourceView::Str(text, readings) => self.cast_text(text, readings, keys),
            SourceView::U64(v) => self.cast_u64(v, keys),
            SourceView::I64(v) => self.cast_i64(v, keys),
            SourceView::F64(bits, shortest) => self.cast_float(bits, shortest, keys),
            SourceView::Bool(v) => self.cast_bool(v, keys),
            SourceView::DateTime(micros) => self.cast_datetime(micros, keys),
            SourceView::IpAddr(address, rendered) => self.cast_ip(address, rendered, keys),
            _ => self.bail(value.display_name(), keys),
        }
    }

    /// The outcome of casting the elements of an array, one by one: the
    /// cast elements, or the failure of the first element that fails.  An
    /// element that is itself an array or an object fails.
    pub open spec fn cast_elements(self, elements: Seq<SourceView>, keys: Seq<&str>) -> Result<
        Seq<ValueView>,
        FailureView,
    >
        decreases elements.len(),
    {
        if elements.len() == 0 {
            Ok(Seq::empty())
        } else {
            match self.cast_elements(elements.drop_last(), keys) {
                Err(failure) => Err(failure),
                Ok(front) => {
                    let last = elements.last();
                    if last is Array || last is Object {
                        match self.detail(CastError::Nested, last.display_name(), nested_reason(), keys) {
                            Err(failure) => Err(failure),
                            Ok(_) => Ok(front),
                        }
                    } else {
                        match self.cast_single(last, keys) {
                            Ok(value) => Ok(front.push(value)),
                            Err(failure) => Err(failure),
                        }
                    }
                },
            }
        }
    }

    /// The outcome of casting a typed value.
    pub open spec fn cast_typed(self, value: SourceView, keys: Seq<&str>) -> Outcome {
        match value {
            SourceView::Array(elements) => match self.cast_elements(elements, keys) {
                Ok(values) => Ok(ValueView::Array(values)),
                Err(failure) => Err(failure),
            },
            _ => self.cast_single(value, keys),
        }
    }

    /// The outcome of casting a value read from JSON, which knows text,
    /// numbers, booleans, arrays and objects only.
    pub open spec fn cast_json(self, value: SourceView, keys: Seq<&str>) -> Outcome {
        match value {
            SourceView::DateTime(_) | SourceView::IpAddr(_, _) | SourceView::Bytes(_) => self.bail(
                value.display_name(),
                keys,
            ),
            _ => self.cast_typed(value, keys),
        }
    }
}

/// The outcome of a cast, as plain values.
pub open spec fn outcome(result: Result<Value, CastFailure>) -> Outcome {
    match result {
        Ok(value) => Ok(value@),
        Err(failure) => Err((failure.kind, failure.message@)),
    }
}

/// A failure among the first elements of an array is the failure of the
/// whole array.
pub proof fn lemma_first_failure_stands(
    cast: CastView,
    elements: Seq<SourceView>,
    n: int,
    keys: Seq<&str>,
)
    requires
        0 <= n <= elements.len(),
        cast.cast_elements(elements.take(n), keys) is Err,
    ensures
        cast.cast_elements(elements, keys) == cast.cast_elements(elements.take(n), keys),
    decreases elements.len() - n,
{
    if n == elements.len() {
        assert(elements.take(n) =~= elements);
    } else {
        assert(elements.take(n + 1).drop_last() =~= elements.take(n));
        lemma_first_failure_stands(cast, elements, n + 1, keys);
    }
}

/// Whether two texts are the same.
fn same_text(left: &str, right: &str) -> (same: bool)
    ensures
        same == (left@ == right@),
{
    String::from_str(left) == String::from_str(right)
}

/// The field a cast is for, as messages show it.
fn field_of(keys_history: &[&str]) -> (text: String)
    ensures
        text@ == field_text(keys_history@),
{
    let path = join_slices(keys_history, ".");
    debug_text(path.as_str())
}

/// "Cannot cast `from` to `to` for field (...)".
fn bail_message(from: &str, to: &str, keys_history: &[&str]) -> (text: String)
    ensures
        text@ == bail_text(from@, to@, keys_history@),
{
    let mut out = String::from_str("Cannot cast `");
    out.append(from);
    out.append("` to `");
    out.append(to);
    out.append("` for field (");
    let field = field_of(keys_history);
    out.append(field.as_str());
    out.append(")");
    out
}

impl TypeCast {
    /// The name of the target type as messages spell it.
    pub fn display_name(&self) -> (name: String)
        ensures
            name@ == self@.display_name(),
    {
        match self {
            TypeCast::String => String::from_str("string"),
            TypeCast::U64 => String::from_str("u64"),
            TypeCast::I64 => String::from_str("i64"),
            TypeCast::F64 => String::from_str("f64"),
            TypeCast::Bytes => String::from_str("bytes"),
            TypeCast::Bool => String::from_str("bool"),
            TypeCast::DateTime(parser) => {
                let mut out = String::from_str("datetime<");
                let supported = parser.supported_formats();
                out.append(supported.as_str());
                out.append(">");
                out
            },
            TypeCast::IpAddr => String::from_str("ip"),
        }
    }

    /// The failure of a cast that the target does not take.
    fn bail(&self, from: &str, keys_history: &[&str]) -> (result: Result<Value, CastFailure>)
        ensures
            outcome(result) == self@.bail(from@, keys_history@),
    {
        let to = self.display_name();
        Err(failure(CastError::Unsupported, bail_message(from, to.as_str(), keys_history)))
    }

    /// The failure of a cast of text that is no value of the target.
    fn err_invalid_value(&self, text: &str, keys_history: &[&str]) -> (result: Result<
        Value,
        CastFailure,
    >)
        ensures
            outcome(result) == self@.invalid(text@, keys_history@),
    {
        let to = self.display_name();
        let mut message = bail_message("string", to.as_str(), keys_history);
        message.append(" due to an invalid value being provided: ");
        let quoted = debug_text(text);
        message.append(quoted.as_str());
        Err(failure(CastError::InvalidValue, message))
    }

    /// The failure of a cast for the given reason.
    fn err_with_detail(&self, kind: CastError, from: &str, reason: &str, keys_history: &[&str]) -> (result:
        Result<Value, CastFailure>)
        ensures
            outcome(result) == self@.detail(kind, from@, reason@, keys_history@),
    {
        let to = self.display_name();
        let mut message = bail_message(from, to.as_str(), keys_history);
        message.append(" ");
        message.append(reason);
        Err(failure(kind, message))
    }

    /// Attempts to cast text to the cast type.
    ///
    /// `readings` says what the text reads as a floating point number and
    /// as an address; a cast to one of these goes by it.
    pub fn try_cast_str(&self, string: &str, readings: Readings, keys_history: &[&str]) -> (result:
        Result<Value, CastFailure>)
        ensures
            outcome(result) == self@.cast_text(string@, readings, keys_history@),
    {
        match self {
            TypeCast::String => Ok(Value::Str(String::from_str(string))),
            TypeCast::U64 => {
                let len = string.unicode_len();
                assert(string@.subrange(0, len as int) =~= string@);
                match parse_decimal(string, 0, len, u64::MAX) {
                    Some(v) => Ok(Value::U64(v)),
                    None => self.err_invalid_value(string, keys_history),
                }
            },
            TypeCast::I64 => match parse_signed_decimal(string) {
                Some(v) => Ok(Value::I64(v)),
                None => self.err_invalid_value(string, keys_history),
            },
            TypeCast::F64 => match readings.float_bits {
                Some(bits) => Ok(Value::F64(bits)),
                None => self.err_invalid_value(string, keys_history),
            },
            TypeCast::Bool => {
                if same_text(string, "true") {
                    Ok(Value::Bool(true))
                } else if same_text(string, "false") {
                    Ok(Value::Bool(false))
                } else {
                    self.err_invalid_value(string, keys_history)
                }
            },
            TypeCast::DateTime(parser) => match parser.try_parse_str(string) {
                Ok(time) => Ok(Value::DateTime(time)),
                Err(e) => Err(e),
            },
            TypeCast::IpAddr => match readings.ip {
                Some(address) => Ok(Value::IpAddr(address)),
                None => self.err_invalid_value(string, keys_history),
            },
            TypeCast::Bytes => match base64_decode(string) {
                Some(bytes) => Ok(Value::Bytes(bytes)),
                None => self.err_invalid_value(string, keys_history),
            },
        }
    }

    /// Attempts to cast an unsigned integer to the cast type.
    pub fn try_cast_u64(&self, v: u64, keys_history: &[&str]) -> (result: Result<Value, CastFailure>)
        ensures
            outcome(result) == self@.cast_u64(v, keys_history@),
    {
        match self {
            TypeCast::U64 => Ok(Value::U64(v)),
            TypeCast::I64 => {
                if v <= i64::MAX as u64 {
                    Ok(Value::I64(v as i64))
                } else {
                    self.err_with_detail(
                        CastError::OutOfRange,
                        "u64",
                        "because the input value cannot be safely represented by the target type",
                        keys_history,
                    )
                }
            },
            TypeCast::String => Ok(Value::Str(itoa_u64(v))),
            TypeCast::DateTime(parser) => {
                if v <= i64::MAX as u64 {
                    match parser.try_convert_timestamp(v as i64) {
                        Ok(time) => Ok(Value::DateTime(time)),
                        Err(e) => Err(e),
                    }
                } else {
                    self.err_with_detail(
                        CastError::OutOfRange,
                        "u64",
                        "because the input value cannot be safely represented by the target type",
                        keys_history,
                    )
                }
            },
            _ => self.bail("u64", keys_history),
        }
    }

    /// Attempts to cast a signed integer to the cast type.
    pub fn try_cast_i64(&self, v: i64, keys_history: &[&str]) -> (result: Result<Value, CastFailure>)
        ensures
            outcome(result) == self@.cast_i64(v, keys_history@),
    {
        match self {
            TypeCast::I64 => Ok(Value::I64(v)),
            TypeCast::U64 => {
                if v >= 0 {
                    Ok(Value::U64(v as u64))
                } else {
                    self.err_with_detail(
                        CastError::OutOfRange,
                        "i64",
                        "because the input value cannot be safely represented by the target type",
                        keys_history,
                    )
                }
            },
            TypeCast::String => Ok(Value::Str(itoa_i64(v))),
            TypeCast::DateTime(parser) => match parser.try_convert_timestamp(v) {
                Ok(time) => Ok(Value::DateTime(time)),
                Err(e) => Err(e),
            },
            _ => self.bail("i64", keys_history),
        }
    }

    /// Attempts to cast a floating point number to the cast type.  The
    /// number comes as its bit pattern, with its shortest rendering, which a
    /// cast to text takes over.
    pub fn try_cast_f64(&self, bits: u64, shortest: &str, keys_history: &[&str]) -> (result:
        Result<Value, CastFailure>)
        ensures
            outcome(result) == self@.cast_float(bits, shortest@, keys_history@),
    {
        match self {
            TypeCast::F64 => Ok(Value::F64(bits)),
            TypeCast::String => Ok(Value::Str(String::from_str(shortest))),
            _ => self.bail("f64", keys_history),
        }
    }

    /// Attempts to cast a boolean to the cast type.
    pub fn try_cast_bool(&self, v: bool, keys_history: &[&str]) -> (result: Result<
        Value,
        CastFailure,
    >)
        ensures
            outcome(result) == self@.cast_bool(v, keys_history@),
    {
        match self {
            TypeCast::Bool => Ok(Value::Bool(v)),
            TypeCast::String => {
                let text = if v {
                    "true"
                } else {
                    "false"
                };
                Ok(Value::Str(String::from_str(text)))
            },
            _ => self.bail("bool", keys_history),
        }
    }

    /// Attempts to cast a point in time to the cast type.
    pub fn try_cast_datetime(&self, v: DateTime, keys_history: &[&str]) -> (result: Result<
        Value,
        CastFailure,
    >)
        ensures
            outcome(result) == self@.cast_datetime(v@, keys_history@),
    {
        match self {
            TypeCast::DateTime(_) => Ok(Value::DateTime(v)),
            TypeCast::String => match v.to_rfc3339() {
                Some(rendered) => Ok(Value::Str(rendered)),
                None => {
                    let mut message = String::from_str(
                        "Cannot format datetime as is beyond what the format supports rendering",
                    );
                    message.append(" for field (");
                    let field = field_of(keys_history);
                    message.append(field.as_str());
                    message.append(")");
                    Err(failure(CastError::Unprintable, message))
                },
            },
            _ => self.bail("datetime", keys_history),
        }
    }

    /// Attempts to cast an address to the cast type.  The address comes as
    /// the 128 bits of its IPv6 form, with its rendering, which a cast to
    /// text takes over.
    pub fn try_cast_ip(&self, address: u128, rendered: &str, keys_history: &[&str]) -> (result:
        Result<Value, CastFailure>)
        ensures
            outcome(result) == self@.cast_ip(address, rendered@, keys_history@),
    {
        match self {
            TypeCast::IpAddr => Ok(Value::IpAddr(address)),
            TypeCast::String => Ok(Value::Str(String::from_str(rendered))),
            _ => self.bail("ip", keys_history),
        }
    }

    /// Attempts to cast a value that is not an array.
    fn cast_single(&self, value: &SourceValue, keys_history: &[&str]) -> (result: Result<
        Value,
        CastFailure,
    >)
        requires
            !(value is Array),
        ensures
            outcome(result) == self@.cast_single(value@, keys_history@),
            value@ == value.shallow(),
            result matches Ok(cast) ==> !(cast is Array) && cast@ == cast.shallow(),
    {
        match value {
            SourceValue::Null => Ok(Value::Null),
            SourceValue::Str(text, readings) => self.try_cast_str(
                text.as_str(),
                *readings,
                keys_history,
            ),
            SourceValue::U64(v) => self.try_cast_u64(*v, keys_history),
            SourceValue::I64(v) => self.try_cast_i64(*v, keys_history),
            SourceValue::F64(bits, shortest) => self.try_cast_f64(
                *bits,
                shortest.as_str(),
                keys_history,
            ),
            SourceValue::Bool(v) => self.try_cast_bool(*v, keys_history),
            SourceValue::DateTime(time) => self.try_cast_datetime(*time, keys_history),
            SourceValue::IpAddr(address, rendered) => self.try_cast_ip(
                *address,
                rendered.as_str(),
                keys_history,
            ),
            other => self.bail(other.display_name(), keys_history),
        }
    }

    /// Attempts to cast a typed value to the cast type.
    ///
    /// An array is cast element by element, and fails as its first failing
    /// element does; an array of arrays or of objects is not cast at all.
    pub fn try_cast_typed(&self, value: &SourceValue, keys_history: &[&str]) -> (result: Result<
        Value,
        CastFailure,
    >)
        ensures
            outcome(result) == self@.cast_typed(value@, keys_history@),
    {
        match value {
            SourceValue::Array(items) => {
                let ghost elements = value@->Array_0;
                let mut casted: Vec<Value> = Vec::new();
                let mut i: usize = 0;
                proof {
                    assert(elements.take(0) =~= Seq::<SourceView>::empty());
                }
                while i < items.len()
                    invariant
                        i <= items.len(),
                        value@ == SourceView::Array(elements),
                        elements.len() == items@.len(),
                        forall|k: int|
                            0 <= k < items@.len() ==> elements[k] == (#[trigger] items@[k]).shallow(),
                        casted@.len() == i,
                        self@.cast_elements(elements.take(i as int), keys_history@) is Ok,
                        self@.cast_elements(elements.take(i as int), keys_history@)->Ok_0.len() == i,
                        forall|k: int|
                            0 <= k < i ==> (#[trigger] casted@[k]).shallow() == self@.cast_elements(
                                elements.take(i as int),
                                keys_history@,
                            )->Ok_0[k],
                    decreases items.len() - i,
                {
                    let item = &items[i];
                    let ghost seen = elements.take(i + 1);
                    proof {
                        assert(seen.drop_last() =~= elements.take(i as int));
                        assert(seen.last() == item.shallow());
                    }
                    let outcome = match item {
                        SourceValue::Array(_) | SourceValue::Object => self.err_with_detail(
                            CastError::Nested,
                            item.display_name(),
                            "due to field containing an array of arrays or array of objects",
                            keys_history,
                        ),
                        _ => self.cast_single(item, keys_history),
                    };
                    match outcome {
                        Ok(cast) => {
                            casted.push(cast);
                        },
                        Err(e) => {
                            proof {
                                lemma_first_failure_stands(
                                    self@,
                                    elements,
                                    i + 1,
                                    keys_history@,
                                );
                            }
                            return Err(e);
                        },
                    }
                    i += 1;
                }
                proof {
                    assert(elements.take(items.len() as int) =~= elements);
                    let values = self@.cast_elements(elements, keys_history@)->Ok_0;
                    assert(Value::Array(casted)@->Array_0 =~= values);
                }
                Ok(Value::Array(casted))
            },
            _ => self.cast_single(value, keys_history),
        }
    }

    /// Attempts to cast a value read from JSON to the cast type.  Points in
    /// time, addresses and raw bytes do not come from JSON and are refused.
    pub fn try_cast_json(&self, value: &SourceValue, keys_history: &[&str]) -> (result: Result<
        Value,
        CastFailure,
    >)
        ensures
            outcome(result) == self@.cast_json(value@, keys_history@),
    {
        match value {
            SourceValue::DateTime(_) | SourceValue::IpAddr(_, _) | SourceValue::Bytes(_) => self.bail(
                value.display_name(),
                keys_history,
            ),
            _ => self.try_cast_typed(value, keys_history),
        }
    }
}

impl DateTimeParser {
    /// What the parser makes of a value: text is read, a signed integer is
    /// taken as a timestamp, anything else is refused.
    pub open spec fn read_value(parser: ParserView, value: SourceView) -> Result<int, FailureView> {
        match value {
            SourceView::Str(text, _) => parser.read(text),
            SourceView::I64(ts) => parser.convert(ts),
            _ => Err(
                (
                    CastError::Unsupported,
                    "Cannot cast `"@ + value.display_name() + "` to `datetime`"@,
                ),
            ),
        }
    }

    /// Attempts to read a point in time from a typed value.
    pub fn try_parse_typed(&self, value: &SourceValue) -> (result: Result<DateTime, CastFailure>)
        ensures
            time_outcome(result) == DateTimeParser::read_value(self@, value@),
    {
        match value {
            SourceValue::Str(text, _) => self.try_parse_str(text.as_str()),
            SourceValue::I64(ts) => self.try_convert_timestamp(*ts),
            other => {
                let mut message = String::from_str("Cannot cast `");
                message.append(other.display_name());
                message.append("` to `datetime`");
                Err(failure(CastError::Unsupported, message))
            },
        }
    }

    /// Attempts to read a point in time from a value read from JSON.
    pub fn try_parse_json(&self, value: &SourceValue) -> (result: Result<DateTime, CastFailure>)
        ensures
            time_outcome(result) == DateTimeParser::read_value(self@, value@),
    {
        self.try_parse_typed(value)
    }
}

} // verus!
