//! One reading as the collector receives it, and its row in a location's log.
use vstd::prelude::*;
use crate::decimal::{
    clamp_percent_spec, decimal_text, fahrenheit_of, parse_decimal_spec, Decimal,
};
use crate::location::{is_safe_name, path_of, Location};
use crate::text::push_char;
use crate::time::{date_text_spec, local_now, time_text_spec, Timestamp};
use vstd::string::StringExecFns;

verus! {

/// The first line of every log file.
pub open spec fn header_text() -> Seq<char> {
    seq![
        'D', 'a', 't', 'e', ',', 'T', 'i', 'm', 'e', ',', 'T', 'e', 'm', 'p', 'e', 'r', 'a', 't',
        'u', 'r', 'e', ',', 'H', 'u', 'm', 'i', 'd', 'i', 't', 'y', '\n',
    ]
}

/// The header line of a log file, `Date,Time,Temperature,Humidity`.
pub fn header() -> (r: String)
    ensures
        r@ == header_text(),
{
    let mut s = String::new();
    let h: [char; 31] = [
        'D', 'a', 't', 'e', ',', 'T', 'i', 'm', 'e', ',', 'T', 'e', 'm', 'p', 'e', 'r', 'a', 't',
        'u', 'r', 'e', ',', 'H', 'u', 'm', 'i', 'd', 'i', 't', 'y', '\n',
    ];
    let mut i: usize = 0;
    while i < 31
        invariant
            i <= 31,
            h@ == header_text(),
            s@ == header_text().subrange(0, i as int),
        decreases 31 - i,
    {
        push_char(&mut s, h[i]);
        assert(s@ =~= header_text().subrange(0, i + 1));
        i = i + 1;
    }
    assert(s@ =~= header_text());
    s
}

/// Why a request could not become a reading.
#[derive(Clone, Copy, Debug, PartialEq, Eq, Structural)]
pub enum RejectReason {
    /// The location name is empty or holds a path separator or NUL.
    UnsafeLocation,
    /// The temperature is no decimal, or too long to convert.
    BadTemperature,
    /// The humidity is no decimal.
    BadHumidity,
}

/// A reading received by the collector: temperature in degrees Fahrenheit,
/// relative humidity in percent (from 0 to 100), and when it arrived.
#[derive(Clone, Debug)]
pub struct Reading {
    location: Location,
    temperature: Decimal,
    humidity: Decimal,
    reading_time: Timestamp,
}

/// The log row of a reading: `MM/DD/YYYY,hh:mm:ss AM,temperature,humidity`
/// and a line end.
pub open spec fn row_text(temperature: Decimal, humidity: Decimal, time: Timestamp) -> Seq<
    char,
> {
    date_text_spec(time) + seq![','] + time_text_spec(time) + seq![','] + decimal_text(temperature)
        + seq![','] + decimal_text(humidity) + seq!['\n']
}

impl Reading {
    pub closed spec fn location_spec(&self) -> Seq<char> {
        self.location@
    }

    pub closed spec fn temperature_spec(&self) -> Decimal {
        self.temperature
    }

    pub closed spec fn humidity_spec(&self) -> Decimal {
        self.humidity
    }

    pub closed spec fn time_spec(&self) -> Timestamp {
        self.reading_time
    }

    pub open spec fn wf(&self) -> bool {
        &&& self.temperature_spec().wf()
        &&& self.humidity_spec().wf()
        &&& self.time_spec().wf()
    }

    /// Makes a reading from the three path parameters of an ingestion
    /// request, the temperature given in degrees Celsius, stamped `now`.
    /// The temperature becomes Fahrenheit (`c * 1.8 + 32`); the humidity is
    /// limited to the range from 0 to 100.
    pub fn from_request(location: &str, temperature: &str, humidity: &str, now: Timestamp) -> (r:
        Result<Reading, RejectReason>)
        requires
            now.wf(),
        ensures
            !is_safe_name(location@) ==> r == Err::<Reading, RejectReason>(
                RejectReason::UnsafeLocation,
            ),
            is_safe_name(location@) && (parse_decimal_spec(temperature@) is None
                || !parse_decimal_spec(temperature@)->0.convertible()) ==> r == Err::<
                Reading,
                RejectReason,
            >(RejectReason::BadTemperature),
            is_safe_name(location@) && parse_decimal_spec(temperature@) is Some
                && parse_decimal_spec(temperature@)->0.convertible() && parse_decimal_spec(
                humidity@,
            ) is None ==> r == Err::<Reading, RejectReason>(RejectReason::BadHumidity),
            r is Ok ==> {
                &&& r->Ok_0.wf()
                &&& r->Ok_0.location_spec() == location@
                &&& r->Ok_0.temperature_spec() == fahrenheit_of(
                    parse_decimal_spec(temperature@)->0,
                )
                &&& r->Ok_0.humidity_spec() == clamp_percent_spec(
                    parse_decimal_spec(humidity@)->0,
                )
                &&& r->Ok_0.time_spec() == now
            },
            is_safe_name(location@) && parse_decimal_spec(temperature@) is Some
                && parse_decimal_spec(temperature@)->0.convertible() && parse_decimal_spec(
                humidity@,
            ) is Some ==> r is Ok,
    {
        let loc = Location::new(location);
        if !loc.is_safe() {
            return Err(RejectReason::UnsafeLocation);
        }
        let c = match Decimal::parse(temperature) {
            Some(c) => c,
            None => {
                return Err(RejectReason::BadTemperature);
            },
        };
        if !(c.scale <= crate::decimal::MAX_CELSIUS_SCALE && -crate::decimal::MAX_CELSIUS_MANTISSA
            < c.mantissa && c.mantissa < crate::decimal::MAX_CELSIUS_MANTISSA) {
            return Err(RejectReason::BadTemperature);
        }
        let h = match Decimal::parse(humidity) {
            Some(h) => h,
            None => {
                return Err(RejectReason::BadHumidity);
            },
        };
        Ok(
            Reading {
                location: loc,
                temperature: c.celsius_to_fahrenheit(),
                humidity: h.clamp_percent(),
                reading_time: now,
            },
        )
    }

    /// Makes a reading from the path parameters of an ingestion request,
    /// as `from_request` does, stamped with the local time now.
    pub fn from_path_params(location: &str, temperature: &str, humidity: &str) -> (r: Result<
        Reading,
        RejectReason,
    >)
        ensures
            !is_safe_name(location@) ==> r == Err::<Reading, RejectReason>(
                RejectReason::UnsafeLocation,
            ),
            is_safe_name(location@) && (parse_decimal_spec(temperature@) is None
                || !parse_decimal_spec(temperature@)->0.convertible()) ==> r == Err::<
                Reading,
                RejectReason,
            >(RejectReason::BadTemperature),
            is_safe_name(location@) && parse_decimal_spec(temperature@) is Some
                && parse_decimal_spec(temperature@)->0.convertible() && parse_decimal_spec(
                humidity@,
            ) is None ==> r == Err::<Reading, RejectReason>(RejectReason::BadHumidity),
            r is Ok ==> {
                &&& r->Ok_0.wf()
                &&& r->Ok_0.location_spec() == location@
                &&& r->Ok_0.temperature_spec() == fahrenheit_of(
                    parse_decimal_spec(temperature@)->0,
                )
                &&& r->Ok_0.humidity_spec() == clamp_percent_spec(
                    parse_decimal_spec(humidity@)->0,
                )
            },
            is_safe_name(location@) && parse_decimal_spec(temperature@) is Some
                && parse_decimal_spec(temperature@)->0.convertible() && parse_decimal_spec(
                humidity@,
            ) is Some ==> r is Ok,
    {
        Reading::from_request(location, temperature, humidity, local_now())
    }

    pub fn location(&self) -> (r: Location)
        ensures
            r@ == self.location_spec(),
    {
        self.location.duplicate()
    }

    /// Degrees Fahrenheit.
    pub fn temperature(&self) -> (r: Decimal)
        ensures
            r == self.temperature_spec(),
    {
        self.temperature
    }

    /// Percent relative humidity.
    pub fn humidity(&self) -> (r: Decimal)
        ensures
            r == self.humidity_spec(),
    {
        self.humidity
    }

    pub fn reading_time(&self) -> (r: Timestamp)
        ensures
            r == self.time_spec(),
    {
        self.reading_time
    }

    /// The log file name of the reading's location.
    pub fn path(&self) -> (r: String)
        ensures
            r@ == path_of(self.location_spec()),
    {
        self.location.path()
    }

    /// The row this reading adds to its location's log.
    pub fn format_to_file(&self) -> (r: String)
        requires
            self.wf(),
        ensures
            r@ == row_text(self.temperature_spec(), self.humidity_spec(), self.time_spec()),
    {
        let mut out = self.reading_time.date_text();
        push_char(&mut out, ',');
        let t = self.reading_time.time_text();
        out.append(t.as_str());
        push_char(&mut out, ',');
        let tt = self.temperature.to_text();
        out.append(tt.as_str());
        push_char(&mut out, ',');
        let ht = self.humidity.to_text();
        out.append(ht.as_str());
        push_char(&mut out, '\n');
        assert(out@ =~= row_text(self.temperature, self.humidity, self.reading_time));
        out
    }
}

} // verus!
