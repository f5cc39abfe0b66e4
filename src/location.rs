//! Location names: the key of the registry and the base name of each log file.
use vstd::prelude::*;
use crate::text::{chars_of, push_char};

verus! {

/// The name of one sensor's location; case is kept as given.
#[derive(Clone, Debug, PartialEq, Eq, Hash)]
pub struct Location(String);

impl View for Location {
    type V = Seq<char>;

    closed spec fn view(&self) -> Seq<char> {
        self.0@
    }
}

/// The extension of log files.
pub open spec fn csv_suffix() -> Seq<char> {
    seq!['.', 'c', 's', 'v']
}

/// The log file name of a location: its name followed by `.csv`.
pub open spec fn path_of(name: Seq<char>) -> Seq<char> {
    name + csv_suffix()
}

/// A name that can safely stand as a file name in the log directory: not
/// empty, and no path separator or NUL character in it.
pub open spec fn is_safe_name(name: Seq<char>) -> bool {
    &&& name.len() > 0
    &&& forall|i: int| 0 <= i < name.len() ==> #[trigger] name[i] != '/' && name[i] != '\\'
        && name[i] != '\0'
}

/// The location that a file of the log directory holds: the file name
/// without its `.csv` extension, when it has one and a name before it.
pub open spec fn location_of_file_spec(file_name: Seq<char>) -> Option<Seq<char>> {
    let n = file_name.len();
    if n > 4 && file_name.subrange(n - 4, n as int) == csv_suffix() {
        Some(file_name.subrange(0, n - 4))
    } else {
        None
    }
}

impl Location {
    pub fn new(name: &str) -> (r: Location)
        ensures
            r@ == name@,
    {
        Location(name.to_owned())
    }

    pub fn from_string(name: String) -> (r: Location)
        ensures
            r@ == name@,
    {
        Location(name)
    }

    pub fn as_str(&self) -> (r: &str)
        ensures
            r@ == self@,
    {
        self.0.as_str()
    }

    /// A copy of this location.
    pub fn duplicate(&self) -> (r: Location)
        ensures
            r@ == self@,
    {
        Location(self.0.as_str().to_owned())
    }

    /// The log file name of this location, `{name}.csv`.
    pub fn path(&self) -> (r: String)
        ensures
            r@ == path_of(self@),
    {
        let mut p = self.0.as_str().to_owned();
        push_char(&mut p, '.');
        push_char(&mut p, 'c');
        push_char(&mut p, 's');
        push_char(&mut p, 'v');
        assert(p@ =~= path_of(self@));
        p
    }

    /// Whether this name can stand as a file name in the log directory.
    pub fn is_safe(&self) -> (r: bool)
        ensures
            r == is_safe_name(self@),
    {
        let v = chars_of(self.0.as_str());
        if v.len() == 0 {
            return false;
        }
        let mut i: usize = 0;
        while i < v.len()
            invariant
                i <= v.len(),
                v@ == self@,
                forall|j: int| 0 <= j < i ==> #[trigger] v@[j] != '/' && v@[j] != '\\' && v@[j]
                    != '\0',
            decreases v.len() - i,
        {
            let c = v[i];
            if c == '/' || c == '\\' || c == '\0' {
                return false;
            }
            i = i + 1;
        }
        true
    }

    /// The location whose log a directory entry is, if it is one.
    pub fn from_file_name(file_name: &str) -> (r: Option<Location>)
        ensures
            match location_of_file_spec(file_name@) {
                Some(name) => r is Some && r->0@ == name,
                None => r is None,
            },
    {
        let v = chars_of(file_name);
        let n = v.len();
        if n > 4 && v[n - 4] == '.' && v[n - 3] == 'c' && v[n - 2] == 's' && v[n - 1] == 'v' {
            assert(v@.subrange(n - 4, n as int) =~= csv_suffix());
            let mut name = String::new();
            let mut i: usize = 0;
            while i < n - 4
                invariant
                    i <= n - 4,
                    n == v.len(),
                    name@ == v@.subrange(0, i as int),
                decreases n - 4 - i,
            {
                push_char(&mut name, v[i]);
                assert(name@ =~= v@.subrange(0, i + 1));
                i = i + 1;
            }
            Some(Location(name))
        } else {
            proof {
                if n > 4 && v@.subrange(n - 4, n as int) == csv_suffix() {
                    assert(v@[n - 4] == v@.subrange(n - 4, n as int)[0]);
                    assert(v@[n - 3] == v@.subrange(n - 4, n as int)[1]);
                    assert(v@[n - 2] == v@.subrange(n - 4, n as int)[2]);
                    assert(v@[n - 1] == v@.subrange(n - 4, n as int)[3]);
                }
            }
            None
        }
    }
}

/// Distinct names give distinct log files.
pub proof fn lemma_path_injective(a: Seq<char>, b: Seq<char>)
    requires
        path_of(a) == path_of(b),
    ensures
        a == b,
{
    assert(path_of(a).len() == a.len() + 4);
    assert(path_of(b).len() == b.len() + 4);
    assert(a.len() == b.len());
    assert(a =~= path_of(a).subrange(0, a.len() as int));
    assert(b =~= path_of(b).subrange(0, b.len() as int));
}

/// The scan of the log directory finds each location under the name that
/// its log file was written for.
pub proof fn lemma_file_name_round_trip(name: Seq<char>)
    requires
        name.len() > 0,
    ensures
        location_of_file_spec(path_of(name)) == Some(name),
{
    let p = path_of(name);
    assert(p.subrange(p.len() - 4, p.len() as int) =~= csv_suffix());
    assert(p.subrange(0, p.len() - 4) =~= name);
}

} // verus!
