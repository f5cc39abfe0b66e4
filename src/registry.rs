//! The collector's registry of known locations, and the decisions of the
//! ingestion endpoint around it.
//!
//! The registry maps each location to the time of its last write in this
//! process (`None` until the first). The open log files themselves stay
//! with the caller, keyed the same way; the registry tells the caller which
//! file to write, what to write, and which status to answer.
use vstd::prelude::*;
use crate::location::{location_of_file_spec, Location};
use crate::reading::{header, header_text};
use crate::time::Timestamp;
use vstd::string::StringExecFns;

verus! {

/// What the registry knows of one location.
#[derive(Clone, Copy, Debug, PartialEq, Eq, Structural)]
pub struct LocationInfo {
    pub last_modified: Option<Timestamp>,
}

impl LocationInfo {
    /// A location that has not been written in this process.
    pub fn new() -> (r: LocationInfo)
        ensures
            r.last_modified is None,
    {
        LocationInfo { last_modified: None }
    }

    pub fn get_last_modified(&self) -> (r: Option<Timestamp>)
        ensures
            r == self.last_modified,
    {
        self.last_modified
    }

    /// Records a write at `now`.
    pub fn mark_written(&mut self, now: Timestamp)
        ensures
            final(self).last_modified == Some(now),
    {
        self.last_modified = Some(now);
    }
}

/// The answer of the ingestion endpoint.
#[derive(Clone, Copy, Debug, PartialEq, Eq, Structural)]
pub enum IngestStatus {
    /// A log file was opened for a location new to the registry (201).
    Created,
    /// The row went to a file already open (200).
    Appended,
    /// The log file could not be opened or created (500).
    Failed,
}

/// What the caller is to do with a reading.
#[derive(Clone, Copy, Debug, PartialEq, Eq, Structural)]
pub enum IngestPlan {
    /// Append the row to the open file of the entry at `index`, then call
    /// `finish_append`.
    AppendTo { index: usize },
    /// Open (creating if needed) the location's log file; on success write
    /// `new_file_text` to it and call `finish_open`.
    OpenLog,
}

pub type RegistryView = Seq<(Seq<char>, Option<Timestamp>)>;

/// The index of the entry for `name`, or -1.
pub open spec fn position(v: RegistryView, name: Seq<char>) -> int
    decreases v.len(),
{
    if v.len() == 0 {
        -1
    } else if v.last().0 == name {
        v.len() - 1
    } else {
        position(v.drop_last(), name)
    }
}

/// Each location appears once.
pub open spec fn names_unique(v: RegistryView) -> bool {
    forall|i: int, j: int| 0 <= i < j < v.len() ==> #[trigger] v[i].0 != #[trigger] v[j].0
}

/// Every recorded write time is a valid timestamp.
pub open spec fn times_wf(v: RegistryView) -> bool {
    forall|i: int| 0 <= i < v.len() && (#[trigger] v[i]).1 is Some ==> v[i].1->0.wf()
}

/// The registry at boot, built from the file names of the log directory, in
/// order: each `.csv` file adds its location once, never written yet.
pub open spec fn scan_spec(names: Seq<Seq<char>>) -> RegistryView
    decreases names.len(),
{
    if names.len() == 0 {
        Seq::empty()
    } else {
        let v = scan_spec(names.drop_last());
        match location_of_file_spec(names.last()) {
            Some(l) => if position(v, l) < 0 {
                v.push((l, None))
            } else {
                v
            },
            None => v,
        }
    }
}

/// What a new log file receives: the header first, when the file did not
/// exist before, then the row.
pub open spec fn new_file_text_spec(file_existed: bool, row: Seq<char>) -> Seq<char> {
    if file_existed {
        row
    } else {
        header_text() + row
    }
}

pub proof fn lemma_position(v: RegistryView, name: Seq<char>)
    ensures
        -1 <= position(v, name) < v.len(),
        position(v, name) >= 0 ==> v[position(v, name)].0 == name,
        position(v, name) < 0 ==> forall|i: int| 0 <= i < v.len() ==> #[trigger] v[i].0 != name,
        names_unique(v) && position(v, name) >= 0 ==> forall|i: int|
            0 <= i < v.len() && #[trigger] v[i].0 == name ==> i == position(v, name),
    decreases v.len(),
{
    if v.len() > 0 {
        lemma_position(v.drop_last(), name);
        if v.last().0 != name {
            assert forall|i: int| 0 <= i < v.len() - 1 implies #[trigger] v[i] == v.drop_last()[i] by {}
        }
    }
}

proof fn lemma_position_exact(v: RegistryView, name: Seq<char>, k: int)
    requires
        names_unique(v),
        0 <= k < v.len(),
        v[k].0 == name,
    ensures
        position(v, name) == k,
{
    lemma_position(v, name);
    if position(v, name) < 0 {
        assert(v[k].0 != name);
    }
}

pub struct Registry {
    entries: Vec<(Location, LocationInfo)>,
}

impl View for Registry {
    type V = RegistryView;

    closed spec fn view(&self) -> RegistryView {
        Seq::new(
            self.entries@.len(),
            |i: int| (self.entries@[i].0@, self.entries@[i].1.last_modified),
        )
    }
}

impl Registry {
    pub closed spec fn wf(&self) -> bool {
        &&& names_unique(self@)
        &&& times_wf(self@)
    }

    /// An empty registry.
    pub fn new() -> (r: Registry)
        ensures
            r@ == RegistryView::empty(),
            r.wf(),
    {
        let r = Registry { entries: Vec::new() };
        assert(r@ =~= RegistryView::empty());
        r
    }

    /// The number of known locations.
    pub fn len(&self) -> (r: usize)
        ensures
            r == self@.len(),
    {
        self.entries.len()
    }

    /// The location and the last write time of the entry at `index`.
    pub fn entry(&self, index: usize) -> (r: (Location, Option<Timestamp>))
        requires
            index < self@.len(),
        ensures
            r.0@ == self@[index as int].0,
            r.1 == self@[index as int].1,
            self.wf() && r.1 is Some ==> r.1->0.wf(),
    {
        (self.entries[index].0.duplicate(), self.entries[index].1.last_modified)
    }

    /// The index of the entry for `location`, if there is one.
    pub fn lookup(&self, location: &Location) -> (r: Option<usize>)
        requires
            self.wf(),
        ensures
            match r {
                Some(i) => position(self@, location@) == i,
                None => position(self@, location@) < 0,
            },
    {
        let ghost v = self@;
        let target = location.as_str();
        let mut i: usize = 0;
        while i < self.entries.len()
            invariant
                i <= self.entries.len(),
                v == self@,
                names_unique(v),
                v.len() == self.entries.len(),
                target@ == location@,
                forall|j: int| 0 <= j < i ==> #[trigger] v[j].0 != location@,
            decreases self.entries.len() - i,
        {
            let same = self.entries[i].0.as_str().to_owned() == target.to_owned();
            if same {
                proof {
                    lemma_position_exact(v, location@, i as int);
                }
                return Some(i);
            }
            i = i + 1;
        }
        proof {
            lemma_position(v, location@);
            if position(v, location@) >= 0 {
                assert(v[position(v, location@)].0 == location@);
            }
        }
        None
    }

    /// Builds the registry at boot from the names of the files in the log
    /// directory.
    pub fn from_file_names(names: &Vec<String>) -> (r: Registry)
        ensures
            r@ == scan_spec(names@.map_values(|s: String| s@)),
            r.wf(),
    {
        let ghost seqs = names@.map_values(|s: String| s@);
        let mut r = Registry::new();
        let mut i: usize = 0;
        while i < names.len()
            invariant
                i <= names.len(),
                seqs == names@.map_values(|s: String| s@),
                r.wf(),
                r@ == scan_spec(seqs.subrange(0, i as int)),
            decreases names.len() - i,
        {
            proof {
                assert(seqs.subrange(0, i + 1).drop_last() =~= seqs.subrange(0, i as int));
                assert(seqs.subrange(0, i + 1).last() == names@[i as int]@);
            }
            match Location::from_file_name(names[i].as_str()) {
                Some(l) => {
                    if r.lookup(&l).is_none() {
                        r.record_new(l, None);
                    }
                },
                None => {},
            }
            i = i + 1;
        }
        assert(seqs.subrange(0, names.len() as int) =~= seqs);
        r
    }

    /// Adds a location that the registry does not know yet.
    fn record_new(&mut self, location: Location, last_modified: Option<Timestamp>)
        requires
            old(self).wf(),
            position(old(self)@, location@) < 0,
            last_modified is Some ==> last_modified->0.wf(),
        ensures
            final(self)@ == old(self)@.push((location@, last_modified)),
            final(self).wf(),
    {
        let ghost name = location@;
        proof {
            lemma_position(self@, name);
        }
        self.entries.push((location, LocationInfo { last_modified }));
        assert(self@ =~= old(self)@.push((name, last_modified)));
        assert(times_wf(self@)) by {
            assert forall|i: int| 0 <= i < self@.len() && (#[trigger] self@[i]).1 is Some implies self@[i].1->0.wf() by {
                if i < old(self)@.len() {
                    assert(self@[i] == old(self)@[i]);
                }
            }
        }
        assert forall|i: int, j: int| 0 <= i < j < self@.len() implies #[trigger] self@[i].0
            != #[trigger] self@[j].0 by {
            if j == self@.len() - 1 {
                assert(old(self)@[i].0 != name);
            } else {
                assert(old(self)@[i].0 != old(self)@[j].0);
            }
        }
    }

    /// Decides how a reading for `location` is written.
    pub fn begin_ingest(&self, location: &Location) -> (r: IngestPlan)
        requires
            self.wf(),
        ensures
            r == if position(self@, location@) >= 0 {
                IngestPlan::AppendTo { index: position(self@, location@) as usize }
            } else {
                IngestPlan::OpenLog
            },
    {
        match self.lookup(location) {
            Some(i) => IngestPlan::AppendTo { index: i },
            None => IngestPlan::OpenLog,
        }
    }

    /// Records the write of a row to the open file of the entry at `index`.
    pub fn finish_append(&mut self, index: usize, now: Timestamp) -> (r: IngestStatus)
        requires
            old(self).wf(),
            index < old(self)@.len(),
            now.wf(),
        ensures
            r == IngestStatus::Appended,
            final(self)@ == old(self)@.update(index as int, (old(self)@[index as int].0, Some(now))),
            final(self).wf(),
    {
        let mut e = self.entries.remove(index);
        e.1.mark_written(now);
        self.entries.insert(index, e);
        assert(self@ =~= old(self)@.update(index as int, (old(self)@[index as int].0, Some(now))));
        assert(times_wf(self@)) by {
            assert forall|i: int| 0 <= i < self@.len() && (#[trigger] self@[i]).1 is Some implies self@[i].1->0.wf() by {
                if i != index {
                    assert(self@[i] == old(self)@[i]);
                }
            }
        }
        assert forall|i: int, j: int| 0 <= i < j < self@.len() implies #[trigger] self@[i].0
            != #[trigger] self@[j].0 by {
            assert(old(self)@[i].0 != old(self)@[j].0);
        }
        IngestStatus::Appended
    }

    /// Records the outcome of opening the log file of a new location: when
    /// it opened (and was written), the location joins the registry, written
    /// at `now`; when it could not be opened, the registry stays as it was
    /// and the request fails.
    pub fn finish_open(&mut self, location: Location, now: Timestamp, opened: bool) -> (r:
        IngestStatus)
        requires
            old(self).wf(),
            position(old(self)@, location@) < 0,
            now.wf(),
        ensures
            r == if opened {
                IngestStatus::Created
            } else {
                IngestStatus::Failed
            },
            final(self)@ == if opened {
                old(self)@.push((location@, Some(now)))
            } else {
                old(self)@
            },
            final(self).wf(),
    {
        if opened {
            self.record_new(location, Some(now));
            IngestStatus::Created
        } else {
            IngestStatus::Failed
        }
    }
}

/// What to write to a log file just opened for a new location: the header,
/// if the file did not exist before, then the row.
pub fn new_file_text(file_existed: bool, row: &str) -> (r: String)
    ensures
        r@ == new_file_text_spec(file_existed, row@),
{
    if file_existed {
        row.to_owned()
    } else {
        let mut s = header();
        s.append(row);
        s
    }
}

/// One ingestion, as the phases above carry it out when the log file opens:
/// the registry after it, every location's log contents after it, and the
/// status answered. A location new to the registry gets the header in front
/// of its row when its file did not exist before.
pub open spec fn ingest_spec(
    v: RegistryView,
    logs: Map<Seq<char>, Seq<char>>,
    name: Seq<char>,
    row: Seq<char>,
    now: Timestamp,
) -> (RegistryView, Map<Seq<char>, Seq<char>>, IngestStatus) {
    let p = position(v, name);
    if p >= 0 {
        (v.update(p, (name, Some(now))), logs.insert(name, logs[name] + row), IngestStatus::Appended)
    } else {
        let existed = logs.dom().contains(name);
        let prior = if existed {
            logs[name]
        } else {
            Seq::empty()
        };
        (
            v.push((name, Some(now))),
            logs.insert(name, prior + new_file_text_spec(existed, row)),
            IngestStatus::Created,
        )
    }
}

proof fn lemma_position_same_names(v: RegistryView, w: RegistryView, name: Seq<char>)
    requires
        v.len() == w.len(),
        forall|i: int| 0 <= i < v.len() ==> #[trigger] v[i].0 == w[i].0,
    ensures
        position(v, name) == position(w, name),
    decreases v.len(),
{
    if v.len() > 0 {
        assert(v.last().0 == w.last().0);
        lemma_position_same_names(v.drop_last(), w.drop_last(), name);
    }
}

proof fn lemma_ingest_positions(
    v: RegistryView,
    logs: Map<Seq<char>, Seq<char>>,
    a: Seq<char>,
    b: Seq<char>,
    row: Seq<char>,
    now: Timestamp,
)
    requires
        a != b,
    ensures
        position(ingest_spec(v, logs, a, row, now).0, b) == position(v, b),
        position(ingest_spec(v, logs, a, row, now).0, a) >= 0,
{
    let p = position(v, a);
    lemma_position(v, a);
    let v1 = ingest_spec(v, logs, a, row, now).0;
    if p >= 0 {
        lemma_position_same_names(v, v1, b);
        lemma_position_same_names(v, v1, a);
    } else {
        assert(v1.drop_last() =~= v);
    }
}

/// Calling the endpoint twice for a location new to the registry, whose
/// file does not exist yet, writes the header once, on the first call: the
/// file holds the header and the two rows, and the answers are 201, then 200.
pub proof fn lemma_header_written_once(
    v: RegistryView,
    logs: Map<Seq<char>, Seq<char>>,
    name: Seq<char>,
    row1: Seq<char>,
    row2: Seq<char>,
    t1: Timestamp,
    t2: Timestamp,
)
    requires
        position(v, name) < 0,
        !logs.dom().contains(name),
    ensures
        ingest_spec(v, logs, name, row1, t1).2 == IngestStatus::Created,
        ingest_spec(
            ingest_spec(v, logs, name, row1, t1).0,
            ingest_spec(v, logs, name, row1, t1).1,
            name,
            row2,
            t2,
        ).2 == IngestStatus::Appended,
        ingest_spec(
            ingest_spec(v, logs, name, row1, t1).0,
            ingest_spec(v, logs, name, row1, t1).1,
            name,
            row2,
            t2,
        ).1[name] == header_text() + row1 + row2,
{
    let (v1, l1, s1) = ingest_spec(v, logs, name, row1, t1);
    assert(position(v1, name) == v.len());
    assert(l1[name] =~= header_text() + row1);
}

/// Requests for two different locations do not touch each other's logs:
/// whichever runs first, each location's file ends as its own request alone
/// leaves it, each gets the answer it would get alone, and no other file
/// changes.
pub proof fn lemma_ingest_locations_independent(
    v: RegistryView,
    logs: Map<Seq<char>, Seq<char>>,
    a: Seq<char>,
    b: Seq<char>,
    row_a: Seq<char>,
    row_b: Seq<char>,
    t1: Timestamp,
    t2: Timestamp,
)
    requires
        a != b,
    ensures
        ({
            let (va, la, sa) = ingest_spec(v, logs, a, row_a, t1);
            let (vb, lb, sb) = ingest_spec(v, logs, b, row_b, t2);
            let (v_ab, l_ab, s_ab) = ingest_spec(va, la, b, row_b, t2);
            let (v_ba, l_ba, s_ba) = ingest_spec(vb, lb, a, row_a, t1);
            &&& l_ab[a] == la[a] && l_ab[b] == lb[b]
            &&& l_ba[a] == la[a] && l_ba[b] == lb[b]
            &&& s_ab == sb && s_ba == sa
            &&& l_ab.dom() == l_ba.dom()
            &&& forall|k: Seq<char>| k != a && k != b ==> l_ab.dom().contains(k) == logs.dom().contains(k)
                && (logs.dom().contains(k) ==> #[trigger] l_ab[k] == logs[k] && l_ba[k] == logs[k])
        }),
{
    lemma_ingest_positions(v, logs, a, b, row_a, t1);
    lemma_ingest_positions(v, logs, b, a, row_b, t2);
    let (va, la, sa) = ingest_spec(v, logs, a, row_a, t1);
    let (vb, lb, sb) = ingest_spec(v, logs, b, row_b, t2);
    let (v_ab, l_ab, s_ab) = ingest_spec(va, la, b, row_b, t2);
    let (v_ba, l_ba, s_ba) = ingest_spec(vb, lb, a, row_a, t1);
    assert(la.dom().contains(b) == logs.dom().contains(b));
    assert(lb.dom().contains(a) == logs.dom().contains(a));
    assert(l_ab.dom() =~= l_ba.dom());
}

} // verus!
