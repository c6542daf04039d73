use vstd::prelude::*;
use vstd::string::{StrSliceExecFns, StringExecFns};

verus! {

/// The file names that mark a project's root, in the order they are preferred.
pub open spec fn marker_names() -> Seq<Seq<char>> {
    seq!["db.json"@, ".db.json"@, "json-echo.json"@]
}

/// Position of the first `true` at or after `i`, or -1.
pub open spec fn first_true_from(flags: Seq<bool>, i: int) -> int
    decreases flags.len() - i,
{
    if i < 0 || i >= flags.len() {
        -1
    } else if flags[i] {
        i
    } else {
        first_true_from(flags, i + 1)
    }
}

/// `base` joined with the relative name `name`: a `/` goes between them
/// unless `base` is empty or already ends with one.
pub open spec fn joined(base: Seq<char>, name: Seq<char>) -> Seq<char> {
    if base.len() == 0 || base.last() == '/' {
        base + name
    } else {
        base + seq!['/'] + name
    }
}

/// Position of the first `true` in `flags`.
pub fn first_true(flags: &Vec<bool>) -> (r: Option<usize>)
    ensures
        match r {
            Some(p) => p < flags.len() && first_true_from(flags@, 0) == p,
            None => first_true_from(flags@, 0) == -1,
        },
{
    let mut i: usize = 0;
    while i < flags.len()
        invariant
            0 <= i <= flags.len(),
            first_true_from(flags@, 0) == first_true_from(flags@, i as int),
        decreases flags.len() - i,
    {
        if flags[i] {
            return Some(i);
        }
        i += 1;
    }
    None
}

/// Joins a relative name to a directory.
pub fn join_path(base: &str, name: &str) -> (r: String)
    ensures
        r@ == joined(base@, name@),
{
    let n = base.unicode_len();
    let mut r = String::from_str(base);
    if !(n == 0 || base.get_char(n - 1) == '/') {
        r.append("/");
        proof {
            reveal_strlit("/");
        }
    }
    r.append(name);
    r
}

/// Path helpers.
#[derive(Debug)]
pub struct PathUtils;

impl PathUtils {
    /// The marker file names, in the order they are preferred.
    pub fn marker_files() -> (r: Vec<String>)
        ensures
            r@.len() == 3,
            forall|i: int| 0 <= i < 3 ==> (#[trigger] r@[i])@ == marker_names()[i],
    {
        let mut r: Vec<String> = Vec::new();
        r.push(String::from_str("db.json"));
        r.push(String::from_str(".db.json"));
        r.push(String::from_str("json-echo.json"));
        r
    }

    /// The project root: of the directories from the starting one upward, each
    /// given with whether it holds a marker file, the first that holds one.
    pub fn find_root(levels: &Vec<(String, bool)>) -> (r: Option<String>)
        ensures
            ({
                let flags = Seq::new(levels@.len(), |i: int| levels@[i].1);
                let p = first_true_from(flags, 0);
                match r {
                    Some(d) => p >= 0 && d@ == levels@[p].0@,
                    None => p == -1,
                }
            }),
    {
        let ghost flags = Seq::new(levels@.len(), |i: int| levels@[i].1);
        let mut i: usize = 0;
        while i < levels.len()
            invariant
                0 <= i <= levels.len(),
                flags == Seq::new(levels@.len(), |i: int| levels@[i].1),
                first_true_from(flags, 0) == first_true_from(flags, i as int),
            decreases levels.len() - i,
        {
            if levels[i].1 {
                return Some(levels[i].0.clone());
            }
            i += 1;
        }
        None
    }

    /// The canonical form of `path` when one could be had, else `path` itself.
    pub fn normalize_path(path: &str, canonical: Option<String>) -> (r: String)
        ensures
            match canonical {
                Some(c) => r@ == c@,
                None => r@ == path@,
            },
    {
        match canonical {
            Some(c) => c,
            None => String::from_str(path),
        }
    }
}

} // verus!
