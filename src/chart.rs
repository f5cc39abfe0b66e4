//! Reading a location's log back into the points of its chart.
//!
//! The log's first line is its header. Every later line that has the four
//! fields `Date,Time,Temperature,Humidity` with two decimals in the last two
//! gives one point, indexed by its line number; other lines are skipped.
//! Past 100 points only the 100 most recent are kept, renumbered from 0.
use vstd::prelude::*;
use crate::decimal::{
    decimal_text, hundred_spec, lemma_text_round_trip, normalized, parse_decimal_spec,
    plain_text, same_value, value_le, Decimal,
};
use crate::reading::{header_text, row_text};
use crate::text::{all_digits, chars_of, lemma_nat_text, lemma_padded_text, nat_text, padded_text};
use crate::time::{date_text_spec, hour12, meridiem, time_text_spec, year_text, Timestamp};

verus! {

/// Most points a chart shows.
pub const MAX_POINTS: usize = 100;

/// The pieces of `s` between occurrences of `sep` (as `str::split` gives them).
pub open spec fn split_spec(s: Seq<char>, sep: char) -> Seq<Seq<char>>
    decreases s.len(),
{
    if s.len() == 0 {
        seq![Seq::empty()]
    } else {
        let r = split_spec(s.drop_last(), sep);
        if s.last() == sep {
            r.push(Seq::empty())
        } else {
            r.update(r.len() - 1, r.last().push(s.last()))
        }
    }
}

/// The lines of a text; a line end after the last line starts no new line.
pub open spec fn lines_spec(s: Seq<char>) -> Seq<Seq<char>> {
    let parts = split_spec(s, '\n');
    if parts.last().len() == 0 {
        parts.drop_last()
    } else {
        parts
    }
}

/// The temperature and humidity of a log line, if it is a well-formed row.
pub open spec fn row_values(line: Seq<char>) -> Option<(Decimal, Decimal)> {
    let f = split_spec(line, ',');
    if f.len() == 4 && parse_decimal_spec(f[2]) is Some && parse_decimal_spec(f[3]) is Some {
        Some((parse_decimal_spec(f[2])->0, parse_decimal_spec(f[3])->0))
    } else {
        None
    }
}

pub proof fn lemma_split_len(s: Seq<char>, sep: char)
    ensures
        split_spec(s, sep).len() >= 1,
    decreases s.len(),
{
    if s.len() > 0 {
        lemma_split_len(s.drop_last(), sep);
    }
}

/// One point of a chart: its position on the x axis, and the temperature
/// and humidity there.
#[derive(Clone, Copy, Debug, PartialEq, Eq, Structural)]
pub struct ChartPoint {
    pub index: u64,
    pub temperature: Decimal,
    pub humidity: Decimal,
}

/// The points of every well-formed row after the header, indexed by line number.
pub open spec fn points_spec(lines: Seq<Seq<char>>) -> Seq<ChartPoint>
    decreases lines.len(),
{
    if lines.len() <= 1 {
        Seq::empty()
    } else {
        let p = points_spec(lines.drop_last());
        match row_values(lines.last()) {
            Some((t, h)) => p.push(
                ChartPoint { index: (lines.len() - 1) as u64, temperature: t, humidity: h },
            ),
            None => p,
        }
    }
}

/// The most recent `MAX_POINTS` points, renumbered from 0, when there are
/// more; else the points as they are.
pub open spec fn truncate_spec(p: Seq<ChartPoint>) -> Seq<ChartPoint> {
    if p.len() > MAX_POINTS {
        Seq::new(
            MAX_POINTS as nat,
            |j: int|
                ChartPoint {
                    index: j as u64,
                    temperature: p[p.len() - MAX_POINTS + j].temperature,
                    humidity: p[p.len() - MAX_POINTS + j].humidity,
                },
        )
    } else {
        p
    }
}

/// The chart points of a log text.
pub open spec fn chart_points_spec(text: Seq<char>) -> Seq<ChartPoint> {
    truncate_spec(points_spec(lines_spec(text)))
}

/// The upper end of the y axis: the highest temperature, or 100 if that is
/// higher.
pub open spec fn y_max_spec(p: Seq<ChartPoint>) -> Decimal
    decreases p.len(),
{
    if p.len() == 0 {
        hundred_spec()
    } else {
        let m = y_max_spec(p.drop_last());
        if value_le(p.last().temperature, m) {
            m
        } else {
            p.last().temperature
        }
    }
}

/// The data of one chart.
pub struct ChartData {
    pub points: Vec<ChartPoint>,
    pub y_max: Decimal,
}

impl ChartData {
    /// Whether the chart has any point; a location without any well-formed
    /// row has nothing to plot.
    pub fn has_data(&self) -> (r: bool)
        ensures
            r == (self.points@.len() > 0),
    {
        self.points.len() > 0
    }
}

/// Splits a sequence of characters at each `sep`.
pub fn split_chars(v: &Vec<char>, sep: char) -> (r: Vec<Vec<char>>)
    ensures
        r@.len() == split_spec(v@, sep).len(),
        forall|i: int| 0 <= i < r@.len() ==> #[trigger] r@[i]@ == split_spec(v@, sep)[i],
{
    let mut out: Vec<Vec<char>> = Vec::new();
    let mut cur: Vec<char> = Vec::new();
    let mut i: usize = 0;
    proof {
        assert(v@.subrange(0, 0) =~= Seq::<char>::empty());
    }
    while i < v.len()
        invariant
            i <= v.len(),
            out@.len() + 1 == split_spec(v@.subrange(0, i as int), sep).len(),
            forall|j: int| 0 <= j < out@.len() ==> #[trigger] out@[j]@ == split_spec(
                v@.subrange(0, i as int),
                sep,
            )[j],
            cur@ == split_spec(v@.subrange(0, i as int), sep).last(),
        decreases v.len() - i,
    {
        let ghost before = split_spec(v@.subrange(0, i as int), sep);
        proof {
            assert(v@.subrange(0, i + 1).drop_last() =~= v@.subrange(0, i as int));
        }
        let c = v[i];
        if c == sep {
            let done = cur;
            out.push(done);
            cur = Vec::new();
            proof {
                assert(cur@ =~= Seq::<char>::empty());
            }
        } else {
            cur.push(c);
        }
        i = i + 1;
        proof {
            let after = split_spec(v@.subrange(0, i as int), sep);
            assert forall|j: int| 0 <= j < out@.len() implies #[trigger] out@[j]@ == after[j] by {}
        }
    }
    out.push(cur);
    proof {
        assert(v@.subrange(0, v@.len() as int) =~= v@);
    }
    out
}

/// The temperature and humidity of one log line, if it is a well-formed row.
pub fn parse_row(line: &Vec<char>) -> (r: Option<(Decimal, Decimal)>)
    ensures
        r == row_values(line@),
        r is Some ==> (r->0).0.wf() && (r->0).1.wf(),
{
    let f = split_chars(line, ',');
    if f.len() != 4 {
        return None;
    }
    match (Decimal::parse_chars(&f[2]), Decimal::parse_chars(&f[3])) {
        (Some(t), Some(h)) => Some((t, h)),
        _ => None,
    }
}

/// Keeps the most recent `MAX_POINTS` points, renumbered from 0, when
/// there are more.
pub fn truncate(points: Vec<ChartPoint>) -> (r: Vec<ChartPoint>)
    ensures
        r@ == truncate_spec(points@),
{
    let n = points.len();
    if n <= MAX_POINTS {
        return points;
    }
    let mut out: Vec<ChartPoint> = Vec::new();
    let mut j: usize = 0;
    while j < MAX_POINTS
        invariant
            j <= MAX_POINTS,
            n == points@.len(),
            n > MAX_POINTS,
            out@ =~= truncate_spec(points@).subrange(0, j as int),
        decreases MAX_POINTS - j,
    {
        let p = points[n - MAX_POINTS + j];
        out.push(ChartPoint { index: j as u64, temperature: p.temperature, humidity: p.humidity });
        j = j + 1;
    }
    out
}

/// Reads a log text into the data of its chart.
pub fn prepare_chart(text: &str) -> (r: ChartData)
    ensures
        r.points@ == chart_points_spec(text@),
        r.y_max == y_max_spec(chart_points_spec(text@)),
        r.y_max.wf(),
{
    let v = chars_of(text);
    let parts = split_chars(&v, '\n');
    let ghost lines = lines_spec(text@);
    proof {
        lemma_split_len(text@, '\n');
    }
    let mut count = parts.len();
    if parts[count - 1].len() == 0 {
        count = count - 1;
    }
    assert(lines.len() == count);
    let mut points: Vec<ChartPoint> = Vec::new();
    if count <= 1 {
        let points = truncate(points);
        let y_max = highest(&points);
        return ChartData { points, y_max };
    }
    let mut i: usize = 1;
    assert(lines.subrange(0, 1).len() == 1);
    while i < count
        invariant
            1 <= i,
            count <= parts@.len(),
            count == lines.len(),
            forall|k: int| 0 <= k < count ==> #[trigger] parts@[k]@ == lines[k],
            i <= count,
            points@ == points_spec(lines.subrange(0, i as int)),
            forall|k: int| 0 <= k < points@.len() ==> (#[trigger] points@[k]).temperature.wf(),
        decreases count - i,
    {
        proof {
            assert(lines.subrange(0, i + 1).drop_last() =~= lines.subrange(0, i as int));
            assert(lines.subrange(0, i + 1).last() == lines[i as int]);
        }
        match parse_row(&parts[i]) {
            Some((t, h)) => {
                points.push(ChartPoint { index: i as u64, temperature: t, humidity: h });
            },
            None => {},
        }
        i = i + 1;
    }
    assert(lines.subrange(0, count as int) =~= lines);
    let points = truncate(points);
    let y_max = highest(&points);
    ChartData { points, y_max }
}

fn highest(points: &Vec<ChartPoint>) -> (r: Decimal)
    requires
        forall|k: int| 0 <= k < points@.len() ==> (#[trigger] points@[k]).temperature.wf(),
    ensures
        r == y_max_spec(points@),
        r.wf(),
{
    let mut m = Decimal::from_int(100);
    let mut i: usize = 0;
    while i < points.len()
        invariant
            i <= points.len(),
            m.wf(),
            m == y_max_spec(points@.subrange(0, i as int)),
            forall|k: int| 0 <= k < points@.len() ==> (#[trigger] points@[k]).temperature.wf(),
        decreases points.len() - i,
    {
        proof {
            assert(points@.subrange(0, i + 1).drop_last() =~= points@.subrange(0, i as int));
        }
        let t = points[i].temperature;
        if !t.le(&m) {
            m = t;
        }
        i = i + 1;
    }
    assert(points@.subrange(0, points.len() as int) =~= points@);
    m
}

/// A log with more than `MAX_POINTS` well-formed rows charts exactly the
/// `MAX_POINTS` most recent, in order, renumbered from 0.
pub proof fn lemma_downsampling(text: Seq<char>)
    requires
        points_spec(lines_spec(text)).len() > MAX_POINTS,
    ensures
        chart_points_spec(text).len() == MAX_POINTS,
        forall|j: int|
            0 <= j < MAX_POINTS ==> {
                let p = points_spec(lines_spec(text));
                let q = #[trigger] chart_points_spec(text)[j];
                &&& q.index == j
                &&& q.temperature == p[p.len() - MAX_POINTS + j].temperature
                &&& q.humidity == p[p.len() - MAX_POINTS + j].humidity
            },
{
}

/// A log with at most `MAX_POINTS` well-formed rows charts them all, each
/// at its line number.
pub proof fn lemma_no_downsampling(text: Seq<char>)
    requires
        points_spec(lines_spec(text)).len() <= MAX_POINTS,
    ensures
        chart_points_spec(text) == points_spec(lines_spec(text)),
{
}

/// `c` does not occur in `s`.
pub open spec fn free_of(s: Seq<char>, c: char) -> bool {
    forall|i: int| 0 <= i < s.len() ==> #[trigger] s[i] != c
}

proof fn lemma_split_extend(x: Seq<char>, b: Seq<char>, sep: char)
    requires
        free_of(b, sep),
    ensures
        split_spec(x + b, sep) == split_spec(x, sep).update(
            split_spec(x, sep).len() - 1,
            split_spec(x, sep).last() + b,
        ),
    decreases b.len(),
{
    lemma_split_len(x, sep);
    let r = split_spec(x, sep);
    if b.len() == 0 {
        assert(x + b =~= x);
        assert(r.last() + b =~= r.last());
        assert(r.update(r.len() - 1, r.last()) =~= r);
    } else {
        let b0 = b.drop_last();
        assert(free_of(b0, sep)) by {
            assert forall|i: int| 0 <= i < b0.len() implies #[trigger] b0[i] != sep by {
                assert(b0[i] == b[i]);
            }
        }
        lemma_split_extend(x, b0, sep);
        assert((x + b).drop_last() =~= x + b0);
        assert((x + b).last() == b.last());
        assert(b.last() != sep);
        let r0 = split_spec(x + b0, sep);
        assert(r0.last() =~= r.last() + b0);
        assert((r.last() + b0).push(b.last()) =~= r.last() + b);
        assert(r0.update(r0.len() - 1, r0.last().push(b.last())) =~= r.update(
            r.len() - 1,
            r.last() + b,
        ));
    }
}

/// A separator followed by a piece without separators adds that piece.
proof fn lemma_split_join(a: Seq<char>, b: Seq<char>, sep: char)
    requires
        free_of(b, sep),
    ensures
        split_spec(a.push(sep) + b, sep) == split_spec(a, sep).push(b),
{
    lemma_split_len(a, sep);
    lemma_split_extend(a.push(sep), b, sep);
    assert(a.push(sep).drop_last() =~= a);
    let r = split_spec(a.push(sep), sep);
    assert(r == split_spec(a, sep).push(Seq::empty()));
    assert(Seq::<char>::empty() + b =~= b);
    assert(r.update(r.len() - 1, r.last() + b) =~= split_spec(a, sep).push(b));
}

proof fn lemma_split_single(b: Seq<char>, sep: char)
    requires
        free_of(b, sep),
    ensures
        split_spec(b, sep) == seq![b],
{
    lemma_split_extend(Seq::empty(), b, sep);
    assert(Seq::<char>::empty() + b =~= b);
    assert(Seq::<char>::empty() + b =~= b);
    assert(seq![Seq::<char>::empty()].update(0, Seq::<char>::empty() + b) =~= seq![b]);
}

proof fn lemma_free_concat(a: Seq<char>, b: Seq<char>, c: char)
    requires
        free_of(a, c),
        free_of(b, c),
    ensures
        free_of(a + b, c),
{
    assert forall|i: int| 0 <= i < (a + b).len() implies #[trigger] (a + b)[i] != c by {
        if i < a.len() {
            assert((a + b)[i] == a[i]);
        } else {
            assert((a + b)[i] == b[i - a.len()]);
        }
    }
}

proof fn lemma_digits_free(s: Seq<char>, c: char)
    requires
        all_digits(s),
        c == ',' || c == '\n',
    ensures
        free_of(s, c),
{
    assert forall|i: int| 0 <= i < s.len() implies #[trigger] s[i] != c by {
        assert(crate::text::is_digit(s[i]));
    }
}

proof fn lemma_padded_free(n: nat, w: nat, c: char)
    requires
        c == ',' || c == '\n',
    ensures
        free_of(padded_text(n, w), c),
        free_of(nat_text(n), c),
{
    lemma_padded_text(n, w);
    lemma_nat_text(n);
    lemma_digits_free(padded_text(n, w), c);
    lemma_digits_free(nat_text(n), c);
}

/// Dates, times and decimals are written without commas or line ends.
proof fn lemma_fields_free(t: Timestamp, d: Decimal, c: char)
    requires
        c == ',' || c == '\n',
    ensures
        free_of(date_text_spec(t), c),
        free_of(time_text_spec(t), c),
        free_of(decimal_text(d), c),
{
    let y = t.year as int;
    lemma_padded_free(t.month as nat, 2, c);
    lemma_padded_free(t.day as nat, 2, c);
    lemma_padded_free(hour12(t.hour as nat), 2, c);
    lemma_padded_free(t.minute as nat, 2, c);
    lemma_padded_free(t.second as nat, 2, c);
    if 0 <= y <= 9999 {
        lemma_padded_free(y as nat, 4, c);
    } else if y > 9999 {
        lemma_padded_free(y as nat, 4, c);
        lemma_free_concat(seq!['+'], nat_text(y as nat), c);
    } else {
        lemma_padded_free((-y) as nat, 4, c);
        lemma_free_concat(seq!['-'], padded_text((-y) as nat, 4), c);
    }
    let s1 = seq!['/'];
    lemma_free_concat(padded_text(t.month as nat, 2), s1, c);
    lemma_free_concat(padded_text(t.month as nat, 2) + s1, padded_text(t.day as nat, 2), c);
    lemma_free_concat(padded_text(t.month as nat, 2) + s1 + padded_text(t.day as nat, 2), s1, c);
    lemma_free_concat(
        padded_text(t.month as nat, 2) + s1 + padded_text(t.day as nat, 2) + s1,
        year_text(y),
        c,
    );
    let colon = seq![':'];
    let h = padded_text(hour12(t.hour as nat), 2);
    let mi = padded_text(t.minute as nat, 2);
    let se = padded_text(t.second as nat, 2);
    assert(free_of(meridiem(t.hour as nat), c));
    lemma_free_concat(h, colon, c);
    lemma_free_concat(h + colon, mi, c);
    lemma_free_concat(h + colon + mi, colon, c);
    lemma_free_concat(h + colon + mi + colon, se, c);
    lemma_free_concat(h + colon + mi + colon + se, seq![' '], c);
    lemma_free_concat(h + colon + mi + colon + se + seq![' '], meridiem(t.hour as nat), c);
    lemma_decimal_free(normalized(d), c);
}

proof fn lemma_decimal_free(n: Decimal, c: char)
    requires
        c == ',' || c == '\n',
    ensures
        free_of(plain_text(n), c),
{
    let a = crate::decimal::abs(n.mantissa as int);
    let p = crate::text::pow10(n.scale as nat);
    let sign = if n.mantissa < 0 {
        seq!['-']
    } else {
        Seq::<char>::empty()
    };
    lemma_padded_free(a, 0, c);
    if n.scale == 0 {
        lemma_free_concat(sign, nat_text(a), c);
    } else {
        crate::text::lemma_pow10_positive(n.scale as nat);
        lemma_padded_free(a / p, 0, c);
        lemma_padded_free(a % p, n.scale as nat, c);
        lemma_free_concat(sign, nat_text(a / p), c);
        lemma_free_concat(sign + nat_text(a / p), seq!['.'], c);
        lemma_free_concat(
            sign + nat_text(a / p) + seq!['.'],
            padded_text(a % p, n.scale as nat),
            c,
        );
    }
}

/// The fields of a row, without its line end.
proof fn lemma_row_fields(temperature: Decimal, humidity: Decimal, time: Timestamp)
    ensures
        row_text(temperature, humidity, time) == row_text(temperature, humidity, time).drop_last().push(
            '\n',
        ),
        free_of(row_text(temperature, humidity, time).drop_last(), '\n'),
        split_spec(row_text(temperature, humidity, time).drop_last(), ',') == seq![
            date_text_spec(time),
            time_text_spec(time),
            decimal_text(temperature),
            decimal_text(humidity),
        ],
{
    let d = date_text_spec(time);
    let tm = time_text_spec(time);
    let tt = decimal_text(temperature);
    let ht = decimal_text(humidity);
    lemma_fields_free(time, temperature, ',');
    lemma_fields_free(time, temperature, '\n');
    lemma_fields_free(time, humidity, ',');
    lemma_fields_free(time, humidity, '\n');
    let r0 = d.push(',') + tm;
    let r1 = r0.push(',') + tt;
    let r2 = r1.push(',') + ht;
    lemma_split_single(d, ',');
    lemma_split_join(d, tm, ',');
    lemma_split_join(r0, tt, ',');
    lemma_split_join(r1, ht, ',');
    assert(split_spec(r2, ',') =~= seq![d, tm, tt, ht]);
    assert(d.push(',') =~= d + seq![',']);
    assert(r0.push(',') =~= r0 + seq![',']);
    assert(r1.push(',') =~= r1 + seq![',']);
    lemma_free_concat(d, seq![','], '\n');
    lemma_free_concat(d.push(','), tm, '\n');
    lemma_free_concat(r0, seq![','], '\n');
    lemma_free_concat(r0.push(','), tt, '\n');
    lemma_free_concat(r1, seq![','], '\n');
    lemma_free_concat(r1.push(','), ht, '\n');
    assert(row_text(temperature, humidity, time) =~= r2.push('\n'));
    assert(r2.push('\n').drop_last() =~= r2);
}

/// The lines of a new log holding one row: the header and the row.
proof fn lemma_log_lines(row: Seq<char>)
    requires
        row.len() > 0,
        row == row.drop_last().push('\n'),
        free_of(row.drop_last(), '\n'),
    ensures
        lines_spec(header_text() + row) == seq![header_text().drop_last(), row.drop_last()],
{
    let h0 = header_text().drop_last();
    let r2 = row.drop_last();
    assert(header_text() =~= h0.push('\n'));
    assert(free_of(h0, '\n'));
    let text = header_text() + row;
    assert(text =~= (h0.push('\n') + r2).push('\n'));
    lemma_split_single(h0, '\n');
    lemma_split_join(h0, r2, '\n');
    assert((h0.push('\n') + r2).push('\n').drop_last() =~= h0.push('\n') + r2);
    assert(split_spec(text, '\n') =~= seq![h0, r2, Seq::<char>::empty()]);
    assert(lines_spec(text) =~= seq![h0, r2]);
}

/// A reading written to a new log (header, then its row) reads back as one
/// point, at index 1 (the line after the header), with the same
/// temperature and humidity.
pub proof fn lemma_log_round_trip(temperature: Decimal, humidity: Decimal, time: Timestamp)
    requires
        temperature.wf(),
        humidity.wf(),
    ensures
        chart_points_spec(header_text() + row_text(temperature, humidity, time)).len() == 1,
        chart_points_spec(header_text() + row_text(temperature, humidity, time))[0].index == 1,
        same_value(
            chart_points_spec(header_text() + row_text(temperature, humidity, time))[0].temperature,
            temperature,
        ),
        same_value(
            chart_points_spec(header_text() + row_text(temperature, humidity, time))[0].humidity,
            humidity,
        ),
{
    let row = row_text(temperature, humidity, time);
    lemma_row_fields(temperature, humidity, time);
    lemma_log_lines(row);
    let r2 = row.drop_last();
    let h0 = header_text().drop_last();
    let lines = lines_spec(header_text() + row);
    lemma_text_round_trip(temperature);
    lemma_text_round_trip(humidity);
    assert(row_values(r2) == Some((normalized(temperature), normalized(humidity))));
    assert(lines.drop_last() =~= seq![h0]);
    assert(lines.last() == r2);
    let pts = points_spec(lines);
    assert(points_spec(lines.drop_last()) == Seq::<ChartPoint>::empty());
    assert(pts =~= seq![
        ChartPoint { index: 1, temperature: normalized(temperature), humidity: normalized(humidity) },
    ]);
}

/// A log holding the header and then one row per reading, in order.
pub open spec fn log_of(rows: Seq<(Decimal, Decimal, Timestamp)>) -> Seq<char>
    decreases rows.len(),
{
    if rows.len() == 0 {
        header_text()
    } else {
        log_of(rows.drop_last()) + row_text(rows.last().0, rows.last().1, rows.last().2)
    }
}

/// Appending a reading's row to a log whose last line is complete adds one
/// line and one point, at that line's number, with the reading's values
/// (normalized).
pub proof fn lemma_append_row(log: Seq<char>, temperature: Decimal, humidity: Decimal, time: Timestamp)
    requires
        log.len() > 0,
        log.last() == '\n',
        temperature.wf(),
        humidity.wf(),
    ensures
        lines_spec(log + row_text(temperature, humidity, time)) == lines_spec(log).push(
            row_text(temperature, humidity, time).drop_last(),
        ),
        lines_spec(log).len() >= 1,
        points_spec(lines_spec(log + row_text(temperature, humidity, time))) == points_spec(
            lines_spec(log),
        ).push(
            ChartPoint {
                index: lines_spec(log).len() as u64,
                temperature: normalized(temperature),
                humidity: normalized(humidity),
            },
        ),
{
    let row = row_text(temperature, humidity, time);
    lemma_row_fields(temperature, humidity, time);
    let r2 = row.drop_last();
    let l0 = log.drop_last();
    assert(log =~= l0.push('\n'));
    lemma_split_len(l0, '\n');
    assert(split_spec(log, '\n') == split_spec(l0, '\n').push(Seq::empty()));
    assert(lines_spec(log) =~= split_spec(l0, '\n'));
    let text = log + row;
    assert(text =~= (l0.push('\n') + r2).push('\n'));
    lemma_split_join(l0, r2, '\n');
    assert((l0.push('\n') + r2).push('\n').drop_last() =~= l0.push('\n') + r2);
    assert(split_spec(text, '\n') == split_spec(l0, '\n').push(r2).push(Seq::empty()));
    assert(lines_spec(text) =~= split_spec(l0, '\n').push(r2));
    lemma_text_round_trip(temperature);
    lemma_text_round_trip(humidity);
    assert(row_values(r2) == Some((normalized(temperature), normalized(humidity))));
    let lines = lines_spec(text);
    assert(lines.drop_last() =~= lines_spec(log));
    assert(lines.last() == r2);
}

/// The points of a log of rows: one per row, the row after the header at
/// index 1, each with its reading's values.
#[verifier::rlimit(60)]
pub proof fn lemma_log_points(rows: Seq<(Decimal, Decimal, Timestamp)>)
    requires
        forall|i: int| 0 <= i < rows.len() ==> (#[trigger] rows[i]).0.wf() && rows[i].1.wf(),
    ensures
        lines_spec(log_of(rows)).len() == rows.len() + 1,
        log_of(rows).len() > 0 && log_of(rows).last() == '\n',
        points_spec(lines_spec(log_of(rows))) =~= Seq::new(
            rows.len(),
            |i: int|
                ChartPoint {
                    index: (i + 1) as u64,
                    temperature: normalized(rows[i].0),
                    humidity: normalized(rows[i].1),
                },
        ),
    decreases rows.len(),
{
    if rows.len() == 0 {
        lemma_header_lines();
        assert(points_spec(lines_spec(header_text())) =~= Seq::<ChartPoint>::empty());
    } else {
        let prev = rows.drop_last();
        assert forall|i: int| 0 <= i < prev.len() implies (#[trigger] prev[i]).0.wf()
            && prev[i].1.wf() by {
            assert(prev[i] == rows[i]);
        }
        lemma_log_points(prev);
        let last = rows.last();
        assert(last == rows[rows.len() - 1]);
        lemma_append_row(log_of(prev), last.0, last.1, last.2);
        let row = row_text(last.0, last.1, last.2);
        assert(log_of(rows) == log_of(prev) + row);
        assert(row.last() == '\n');
        assert((log_of(prev) + row).last() == row.last());
        let p = points_spec(lines_spec(log_of(prev)));
        let q = points_spec(lines_spec(log_of(rows)));
        assert(q == p.push(
            ChartPoint {
                index: rows.len() as u64,
                temperature: normalized(last.0),
                humidity: normalized(last.1),
            },
        ));
        assert forall|i: int| 0 <= i < rows.len() implies #[trigger] q[i] == (ChartPoint {
            index: (i + 1) as u64,
            temperature: normalized(rows[i].0),
            humidity: normalized(rows[i].1),
        }) by {
            if i < prev.len() {
                assert(q[i] == p[i]);
                assert(prev[i] == rows[i]);
            }
        }
    }
}

proof fn lemma_header_lines()
    ensures
        lines_spec(header_text()) == seq![header_text().drop_last()],
{
    let h0 = header_text().drop_last();
    assert(header_text() =~= h0.push('\n'));
    assert(free_of(h0, '\n'));
    lemma_split_single(h0, '\n');
    assert(split_spec(header_text(), '\n') == seq![h0].push(Seq::<char>::empty()));
    assert(lines_spec(header_text()) =~= seq![h0]);
}

/// A reading written as row `k` (from 0) of a log of rows reads back with
/// the same temperature and humidity, as long as it is among the most
/// recent `MAX_POINTS` rows: at its line number `k + 1` when the log has at
/// most `MAX_POINTS` rows, else at position `k - (n - MAX_POINTS)` of the
/// retained points, which is also its index.
pub proof fn lemma_log_round_trip_rows(rows: Seq<(Decimal, Decimal, Timestamp)>, k: int)
    requires
        forall|i: int| 0 <= i < rows.len() ==> (#[trigger] rows[i]).0.wf() && rows[i].1.wf(),
        0 <= k < rows.len(),
        rows.len() - k <= MAX_POINTS,
    ensures
        ({
            let n = rows.len() as int;
            let c = chart_points_spec(log_of(rows));
            let i = if n <= MAX_POINTS {
                k
            } else {
                k - (n - MAX_POINTS)
            };
            &&& 0 <= i < c.len()
            &&& c[i].index == (if n <= MAX_POINTS {
                k + 1
            } else {
                i
            })
            &&& same_value(c[i].temperature, rows[k].0)
            &&& same_value(c[i].humidity, rows[k].1)
        }),
{
    lemma_log_points(rows);
    assert(rows[k].0.wf() && rows[k].1.wf());
    crate::decimal::lemma_normalized(rows[k].0);
    crate::decimal::lemma_normalized(rows[k].1);
    crate::decimal::lemma_same_value_symmetric(rows[k].0, normalized(rows[k].0));
    crate::decimal::lemma_same_value_symmetric(rows[k].1, normalized(rows[k].1));
}

} // verus!
