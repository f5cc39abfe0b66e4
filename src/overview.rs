//! The collector's overview page: every known location with a link to its
//! chart and its last write, then the locations that count as missing.
use vstd::prelude::*;
use crate::registry::{Registry, RegistryView};
use crate::time::{date_text_spec, is_stale, is_stale_spec, local_now, time_text_spec, Timestamp};
use crate::text::push_char;
use vstd::string::StringExecFns;

verus! {

/// How a last write time is shown: `MM/DD/YYYY hh:mm:ss AM`, or
/// `Not modified`.
pub open spec fn time_cell(last: Option<Timestamp>) -> Seq<char> {
    match last {
        Some(t) => date_text_spec(t) + seq![' '] + time_text_spec(t),
        None => "Not modified"@,
    }
}

/// The table row of one location.
pub open spec fn table_row(e: (Seq<char>, Option<Timestamp>)) -> Seq<char> {
    "<tr><td style=\"border:1px solid black;\"><a href=\"/plot/"@ + e.0 + "\">"@ + e.0
        + "</a></td> <td style=\"border:1px solid black;\">"@ + time_cell(e.1) + "</td></tr>"@
}

/// The warning line of a missing location.
pub open spec fn missing_line(e: (Seq<char>, Option<Timestamp>)) -> Seq<char> {
    "<b style=\"color:red; margin-bottom: 10px;\">MIA Sensor: "@ + e.0 + ", Last modified: "@
        + time_cell(e.1) + "</b><br>"@
}

pub open spec fn table_rows(v: RegistryView) -> Seq<char>
    decreases v.len(),
{
    if v.len() == 0 {
        Seq::empty()
    } else {
        table_rows(v.drop_last()) + table_row(v.last())
    }
}

pub open spec fn missing_lines(v: RegistryView, now: Timestamp) -> Seq<char>
    decreases v.len(),
{
    if v.len() == 0 {
        Seq::empty()
    } else {
        missing_lines(v.drop_last(), now) + if is_stale_spec(v.last().1, now) {
            missing_line(v.last())
        } else {
            Seq::empty()
        }
    }
}

/// The page content: a heading, the table of locations, and a warning line
/// for each location not written for more than ten minutes (or never).
pub open spec fn overview_spec(v: RegistryView, now: Timestamp) -> Seq<char> {
    "<h1>All Sensors</h1><table  style=\"border:1px solid black;\"><tr><th>Sensor Name</th><th>Last Modified</th></tr>"@
        + table_rows(v) + "<br>"@ + missing_lines(v, now) + "</table>"@
}

fn push_time_cell(out: &mut String, last: Option<Timestamp>)
    requires
        last is Some ==> last->0.wf(),
    ensures
        final(out)@ == old(out)@ + time_cell(last),
{
    match last {
        Some(t) => {
            let d = t.date_text();
            out.append(d.as_str());
            push_char(out, ' ');
            let tt = t.time_text();
            out.append(tt.as_str());
            assert(final(out)@ =~= old(out)@ + time_cell(last));
        },
        None => {
            out.append("Not modified");
        },
    }
}

/// Renders the overview of the registry at `now`.
pub fn render_overview(registry: &Registry, now: &Timestamp) -> (r: String)
    requires
        registry.wf(),
    ensures
        r@ == overview_spec(registry@, *now),
{
    let ghost v = registry@;
    let mut out = String::new();
    out.append(
        "<h1>All Sensors</h1><table  style=\"border:1px solid black;\"><tr><th>Sensor Name</th><th>Last Modified</th></tr>",
    );
    let ghost head = out@;
    let n = registry.len();
    let mut i: usize = 0;
    assert(v.subrange(0, 0) =~= RegistryView::empty());
    while i < n
        invariant
            i <= n,
            n == v.len(),
            v == registry@,
            registry.wf(),
            out@ == head + table_rows(v.subrange(0, i as int)),
        decreases n - i,
    {
        let (loc, last) = registry.entry(i);
        proof {
            assert(v.subrange(0, i + 1).drop_last() =~= v.subrange(0, i as int));
            assert(v.subrange(0, i + 1).last() == v[i as int]);
        }
        let ghost before = out@;
        out.append("<tr><td style=\"border:1px solid black;\"><a href=\"/plot/");
        out.append(loc.as_str());
        out.append("\">");
        out.append(loc.as_str());
        out.append("</a></td> <td style=\"border:1px solid black;\">");
        push_time_cell(&mut out, last);
        out.append("</td></tr>");
        assert(out@ =~= before + table_row(v[i as int]));
        i = i + 1;
    }
    assert(v.subrange(0, n as int) =~= v);
    out.append("<br>");
    let ghost mid = out@;
    let mut i: usize = 0;
    while i < n
        invariant
            i <= n,
            n == v.len(),
            v == registry@,
            registry.wf(),
            out@ == mid + missing_lines(v.subrange(0, i as int), *now),
        decreases n - i,
    {
        let (loc, last) = registry.entry(i);
        proof {
            assert(v.subrange(0, i + 1).drop_last() =~= v.subrange(0, i as int));
            assert(v.subrange(0, i + 1).last() == v[i as int]);
        }
        let ghost before = out@;
        if is_stale(last, now) {
            out.append("<b style=\"color:red; margin-bottom: 10px;\">MIA Sensor: ");
            out.append(loc.as_str());
            out.append(", Last modified: ");
            push_time_cell(&mut out, last);
            out.append("</b><br>");
            assert(out@ =~= before + missing_line(v[i as int]));
        } else {
            assert(out@ =~= before + Seq::<char>::empty());
        }
        i = i + 1;
    }
    assert(v.subrange(0, n as int) =~= v);
    out.append("</table>");
    assert(out@ =~= overview_spec(v, *now));
    out
}

/// Renders the overview of the registry at the local time now.
pub fn render_overview_now(registry: &Registry) -> (r: String)
    requires
        registry.wf(),
    ensures
        exists|now: Timestamp| now.wf() && r@ == overview_spec(registry@, now),
{
    let now = local_now();
    render_overview(registry, &now)
}

} // verus!
