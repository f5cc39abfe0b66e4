//! The legacy collector: decoding the serial line protocol, the polled
//! devices' answers and device list, and the lines of its log.
use vstd::prelude::*;
use crate::chart::{split_chars, split_spec};
use crate::decimal::{decimal_text, parse_decimal_spec, Decimal};
use crate::text::{chars_of, push_char};
use crate::time::{local_now, short_text_spec, Timestamp};
use vstd::string::StringExecFns;

verus! {

/// Seconds between two log lines of the serial collector.
pub const LOG_INTERVAL_SECS: u64 = 60;

/// Seconds between two polls of a device.
pub const POLL_DELAY_SECONDS: u64 = 5;

/// One temperature/humidity pair as the legacy collector logs it.
#[derive(Clone, Copy, Debug, PartialEq, Eq, Structural)]
pub struct EnvStat {
    pub temp: Decimal,
    pub humid: Decimal,
}

/// Why polling a device gave no reading.
#[derive(Clone, Copy, Debug, PartialEq, Eq, Structural)]
pub enum EnvStatGetError {
    /// The request failed or its body could not be read.
    UrlFailed,
    /// A value is no decimal.
    ParseError,
    /// The body has no second value.
    ParseErrorLength,
}

/// The values found in one buffer read from the serial port; each is
/// `None` when its marker is missing or malformed.
#[derive(Clone, Copy, Debug, PartialEq, Eq, Structural)]
pub struct SerialFrame {
    pub temperature: Option<Decimal>,
    pub humidity: Option<Decimal>,
}

/// The index of the first occurrence of `a` directly followed by `b`, or -1.
pub open spec fn pair_index(s: Seq<char>, a: char, b: char) -> int
    decreases s.len(),
{
    if s.len() < 2 {
        -1
    } else if s[0] == a && s[1] == b {
        0
    } else {
        let r = pair_index(s.drop_first(), a, b);
        if r < 0 {
            -1
        } else {
            r + 1
        }
    }
}

/// The value after the first `m:` marker, up to the next `:`.
pub open spec fn marker_value(s: Seq<char>, m: char) -> Option<Decimal> {
    let k = pair_index(s, m, ':');
    if k < 0 {
        None
    } else {
        let rest = s.subrange(k + 2, s.len() as int);
        let e = crate::decimal::index_of(rest, ':');
        if e < 0 {
            None
        } else {
            parse_decimal_spec(rest.subrange(0, e))
        }
    }
}

proof fn lemma_pair_index(s: Seq<char>, a: char, b: char, k: int)
    requires
        0 <= k,
        k + 1 <= s.len(),
        forall|j: int| 0 <= j < k ==> !(s[j] == a && #[trigger] s[j + 1] == b),
        k + 1 < s.len() ==> s[k] == a && s[k + 1] == b,
    ensures
        pair_index(s, a, b) == if k + 1 < s.len() {
            k
        } else {
            -1
        },
    decreases s.len(),
{
    if s.len() >= 2 && k > 0 {
        let t = s.drop_first();
        assert forall|j: int| 0 <= j < k - 1 implies !(t[j] == a && #[trigger] t[j + 1] == b) by {
            assert(t[j] == s[j + 1] && t[j + 1] == s[j + 2]);
            assert(!(s[j + 1] == a && s[(j + 1) + 1] == b));
        }
        lemma_pair_index(t, a, b, k - 1);
        assert(!(s[0] == a && s[0int + 1] == b));
    }
}

fn sub_vec(v: &Vec<char>, a: usize, b: usize) -> (r: Vec<char>)
    requires
        a <= b <= v.len(),
    ensures
        r@ == v@.subrange(a as int, b as int),
{
    let mut r: Vec<char> = Vec::new();
    let mut i = a;
    while i < b
        invariant
            a <= i <= b <= v.len(),
            r@ == v@.subrange(a as int, i as int),
        decreases b - i,
    {
        r.push(v[i]);
        assert(r@ =~= v@.subrange(a as int, i + 1));
        i = i + 1;
    }
    r
}

fn find_marker_value(v: &Vec<char>, m: char) -> (r: Option<Decimal>)
    ensures
        r == marker_value(v@, m),
        r is Some ==> r->0.wf(),
{
    let n = v.len();
    if n < 2 {
        return None;
    }
    let mut k: usize = 0;
    while k + 1 < n && !(v[k] == m && v[k + 1] == ':')
        invariant
            k + 1 <= n,
            n == v.len(),
            forall|j: int| 0 <= j < k ==> !(v@[j] == m && #[trigger] v@[j + 1] == ':'),
        decreases n - k,
    {
        k = k + 1;
    }
    proof {
        lemma_pair_index(v@, m, ':', k as int);
    }
    if k + 1 >= n {
        return None;
    }
    let start = k + 2;
    let ghost rest = v@.subrange(start as int, n as int);
    let mut e = start;
    while e < n && v[e] != ':'
        invariant
            start <= e <= n,
            n == v.len(),
            forall|j: int| start <= j < e ==> v@[j] != ':',
        decreases n - e,
    {
        e = e + 1;
    }
    proof {
        assert forall|j: int| 0 <= j < e - start implies rest[j] != ':' by {
            assert(rest[j] == v@[start + j]);
        }
        crate::decimal::lemma_index_of(rest, ':', e - start);
    }
    if e >= n {
        return None;
    }
    let piece = sub_vec(v, start, e);
    assert(piece@ =~= rest.subrange(0, e - start));
    Decimal::parse_chars(&piece)
}

/// Scans one buffer of the serial line protocol: the temperature follows
/// the first `T:` and the humidity the first `H:`, each up to the next `:`.
pub fn decode_serial_frame(text: &str) -> (r: SerialFrame)
    ensures
        r.temperature == marker_value(text@, 'T'),
        r.humidity == marker_value(text@, 'H'),
        r.temperature is Some ==> r.temperature->0.wf(),
        r.humidity is Some ==> r.humidity->0.wf(),
{
    let v = chars_of(text);
    SerialFrame { temperature: find_marker_value(&v, 'T'), humidity: find_marker_value(&v, 'H') }
}

/// What a polled device's answer `temp,humid` gives.
pub open spec fn env_stat_spec(body: Seq<char>) -> Result<EnvStat, EnvStatGetError> {
    let f = split_spec(body, ',');
    if parse_decimal_spec(f[0]) is None {
        Err(EnvStatGetError::ParseError)
    } else if f.len() < 2 {
        Err(EnvStatGetError::ParseErrorLength)
    } else if parse_decimal_spec(f[1]) is None {
        Err(EnvStatGetError::ParseError)
    } else {
        Ok(EnvStat { temp: parse_decimal_spec(f[0])->0, humid: parse_decimal_spec(f[1])->0 })
    }
}

/// Reads a polled device's answer, `temperature,humidity`.
pub fn parse_env_stat(body: &str) -> (r: Result<EnvStat, EnvStatGetError>)
    ensures
        r == env_stat_spec(body@),
        r is Ok ==> r->Ok_0.temp.wf() && r->Ok_0.humid.wf(),
{
    let v = chars_of(body);
    let f = split_chars(&v, ',');
    proof {
        crate::chart::lemma_split_len(v@, ',');
    }
    let temp = match Decimal::parse_chars(&f[0]) {
        Some(t) => t,
        None => {
            return Err(EnvStatGetError::ParseError);
        },
    };
    if f.len() < 2 {
        return Err(EnvStatGetError::ParseErrorLength);
    }
    let humid = match Decimal::parse_chars(&f[1]) {
        Some(h) => h,
        None => {
            return Err(EnvStatGetError::ParseError);
        },
    };
    Ok(EnvStat { temp, humid })
}

/// The device list: comma-separated pairs of address and name; a last
/// address without a name is dropped.
pub open spec fn device_list_spec(contents: Seq<char>) -> Seq<(Seq<char>, Seq<char>)> {
    let f = split_spec(contents, ',');
    Seq::new(f.len() / 2, |k: int| (f[2 * k], f[2 * k + 1]))
}

fn string_of(v: &Vec<char>) -> (r: String)
    ensures
        r@ == v@,
{
    let mut s = String::new();
    let mut i: usize = 0;
    while i < v.len()
        invariant
            i <= v.len(),
            s@ == v@.subrange(0, i as int),
        decreases v.len() - i,
    {
        push_char(&mut s, v[i]);
        assert(s@ =~= v@.subrange(0, i + 1));
        i = i + 1;
    }
    assert(v@.subrange(0, v.len() as int) =~= v@);
    s
}

/// Reads the device list: pairs of address and device name.
pub fn parse_device_list(contents: &str) -> (r: Vec<(String, String)>)
    ensures
        r@.len() == device_list_spec(contents@).len(),
        forall|k: int|
            0 <= k < r@.len() ==> (#[trigger] r@[k]).0@ == device_list_spec(contents@)[k].0
                && r@[k].1@ == device_list_spec(contents@)[k].1,
{
    let v = chars_of(contents);
    let f = split_chars(&v, ',');
    let ghost spec = device_list_spec(contents@);
    let mut out: Vec<(String, String)> = Vec::new();
    let mut k: usize = 0;
    while k < f.len() / 2
        invariant
            k <= f.len() / 2,
            spec.len() == f.len() / 2,
            f@.len() == split_spec(v@, ',').len(),
            forall|i: int| 0 <= i < f@.len() ==> #[trigger] f@[i]@ == split_spec(v@, ',')[i],
            v@ == contents@,
            spec == device_list_spec(contents@),
            out@.len() == k,
            forall|i: int|
                0 <= i < k ==> (#[trigger] out@[i]).0@ == spec[i].0 && out@[i].1@ == spec[i].1,
        decreases f.len() / 2 - k,
    {
        let ip = string_of(&f[2 * k]);
        let name = string_of(&f[2 * k + 1]);
        out.push((ip, name));
        k = k + 1;
    }
    out
}

/// The log line of a reading: `M/D/Y h:mm:ss AM,temp,humid` and a line end.
pub open spec fn timestamp_text_spec(stat: EnvStat, now: Timestamp) -> Seq<char> {
    short_text_spec(now) + seq![','] + decimal_text(stat.temp) + seq![','] + decimal_text(
        stat.humid,
    ) + seq!['\n']
}

/// The log line of a reading taken at `now`.
pub fn timestamp_text_at(stat: &EnvStat, now: &Timestamp) -> (r: String)
    requires
        stat.temp.wf(),
        stat.humid.wf(),
        now.wf(),
    ensures
        r@ == timestamp_text_spec(*stat, *now),
{
    let mut out = now.short_text();
    push_char(&mut out, ',');
    let t = stat.temp.to_text();
    out.append(t.as_str());
    push_char(&mut out, ',');
    let h = stat.humid.to_text();
    out.append(h.as_str());
    push_char(&mut out, '\n');
    assert(out@ =~= timestamp_text_spec(*stat, *now));
    out
}

/// The log line of a reading taken now, at the local time.
pub fn get_timestamp_text(stat: &EnvStat) -> (r: String)
    requires
        stat.temp.wf(),
        stat.humid.wf(),
    ensures
        exists|now: Timestamp| now.wf() && r@ == timestamp_text_spec(*stat, now),
{
    let now = local_now();
    timestamp_text_at(stat, &now)
}

/// The log file of a polled device, `./log/{name}.csv`.
pub fn device_log_path(device_name: &str) -> (r: String)
    ensures
        r@ == "./log/"@ + device_name@ + crate::location::csv_suffix(),
{
    let mut p = String::new();
    p.append("./log/");
    p.append(device_name);
    push_char(&mut p, '.');
    push_char(&mut p, 'c');
    push_char(&mut p, 's');
    push_char(&mut p, 'v');
    assert(p@ =~= "./log/"@ + device_name@ + crate::location::csv_suffix());
    p
}

/// What a poll of a device leads to: the reading to log, and whether to
/// keep polling. A failed poll logs zeros once and stops polling that device.
pub fn after_poll(r: Result<EnvStat, EnvStatGetError>) -> (out: (EnvStat, bool))
    ensures
        match r {
            Ok(s) => out == (s, true),
            Err(_) => out == ((EnvStat {
                temp: Decimal { mantissa: 0, scale: 0 },
                humid: Decimal { mantissa: 0, scale: 0 },
            }), false),
        },
{
    match r {
        Ok(s) => (s, true),
        Err(_) => (
            EnvStat {
                temp: Decimal { mantissa: 0, scale: 0 },
                humid: Decimal { mantissa: 0, scale: 0 },
            },
            false,
        ),
    }
}

/// Whether the serial collector writes a log line at `now_secs`, its last
/// one having been written at `last_secs`: more than a minute later.
pub fn log_due(last_secs: u64, now_secs: u64) -> (r: bool)
    ensures
        r == (now_secs > last_secs && now_secs - last_secs > LOG_INTERVAL_SECS),
{
    now_secs > last_secs && now_secs - last_secs > LOG_INTERVAL_SECS
}

} // verus!
