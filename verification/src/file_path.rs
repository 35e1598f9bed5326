//! A validated file system path, held as text.
//!
//! Paths are treated purely as character strings with `'/'` as the
//! component separator; callers are expected to hand in canonical
//! absolute paths without a trailing slash.

use vstd::prelude::*;
use vstd::string::StrSliceExecFns;
use vstd::string::StringExecFns;
use crate::text::{ascii_lower, lower_eq};

verus! {

/// Index of the last `'/'` of `s`, or -1 when there is none.
pub open spec fn last_slash(s: Seq<char>) -> int
    decreases s.len(),
{
    if s.len() == 0 {
        -1
    } else if s[s.len() - 1] == '/' {
        s.len() - 1
    } else {
        last_slash(s.drop_last())
    }
}

/// Index of the last `'.'` of `s`, or -1 when there is none.
pub open spec fn last_dot(s: Seq<char>) -> int
    decreases s.len(),
{
    if s.len() == 0 {
        -1
    } else if s[s.len() - 1] == '.' {
        s.len() - 1
    } else {
        last_dot(s.drop_last())
    }
}

proof fn lemma_last_slash_pin(s: Seq<char>, k: int)
    requires
        -1 <= k < s.len(),
        k >= 0 ==> s[k] == '/',
        forall|j: int| k < j < s.len() ==> s[j] != '/',
    ensures
        last_slash(s) == k,
    decreases s.len(),
{
    if s.len() > 0 && s[s.len() - 1] != '/' {
        assert(s.drop_last() =~= s.subrange(0, s.len() - 1));
        lemma_last_slash_pin(s.drop_last(), k);
    }
}

proof fn lemma_last_dot_pin(s: Seq<char>, k: int)
    requires
        -1 <= k < s.len(),
        k >= 0 ==> s[k] == '.',
        forall|j: int| k < j < s.len() ==> s[j] != '.',
    ensures
        last_dot(s) == k,
    decreases s.len(),
{
    if s.len() > 0 && s[s.len() - 1] != '.' {
        assert(s.drop_last() =~= s.subrange(0, s.len() - 1));
        lemma_last_dot_pin(s.drop_last(), k);
    }
}

proof fn lemma_last_slash_bounds(s: Seq<char>)
    ensures
        -1 <= last_slash(s) < s.len(),
    decreases s.len(),
{
    if s.len() > 0 && s[s.len() - 1] != '/' {
        lemma_last_slash_bounds(s.drop_last());
    }
}

/// Finds the index of the last `'/'` of `s`, if any.
fn find_last_slash(s: &str) -> (r: Option<usize>)
    ensures
        match r {
            Some(i) => last_slash(s@) == i && i < s@.len(),
            None => last_slash(s@) == -1,
        },
{
    let n = s.unicode_len();
    let mut i: usize = n;
    while i > 0
        invariant
            0 <= i <= n,
            n == s@.len(),
            forall|j: int| i <= j < n ==> s@[j] != '/',
        decreases i,
    {
        if s.get_char(i - 1) == '/' {
            proof {
                lemma_last_slash_pin(s@, i - 1);
            }
            return Some(i - 1);
        }
        i = i - 1;
    }
    proof {
        lemma_last_slash_pin(s@, -1);
    }
    None
}

/// Finds the index of the last `'.'` of `s`, if any.
fn find_last_dot(s: &str) -> (r: Option<usize>)
    ensures
        match r {
            Some(i) => last_dot(s@) == i && i < s@.len(),
            None => last_dot(s@) == -1,
        },
{
    let n = s.unicode_len();
    let mut i: usize = n;
    while i > 0
        invariant
            0 <= i <= n,
            n == s@.len(),
            forall|j: int| i <= j < n ==> s@[j] != '.',
        decreases i,
    {
        if s.get_char(i - 1) == '.' {
            proof {
                lemma_last_dot_pin(s@, i - 1);
            }
            return Some(i - 1);
        }
        i = i - 1;
    }
    proof {
        lemma_last_dot_pin(s@, -1);
    }
    None
}

/// The final path component: everything after the last `'/'`.
pub open spec fn spec_file_name(s: Seq<char>) -> Option<Seq<char>> {
    let name = s.subrange(last_slash(s) + 1, s.len() as int);
    if name.len() == 0 {
        None
    } else {
        Some(name)
    }
}

/// The parent directory: everything before the last `'/'` (the root
/// `"/"` stays the parent of its direct children).
pub open spec fn spec_parent(s: Seq<char>) -> Option<Seq<char>> {
    let i = last_slash(s);
    if i < 0 {
        None
    } else if i == 0 {
        Some(s.subrange(0, 1))
    } else {
        Some(s.subrange(0, i))
    }
}

/// The extension of a name: the part after its last `'.'`, absent when
/// there is no dot or the only dot starts the name.
pub open spec fn spec_name_extension(name: Seq<char>) -> Option<Seq<char>> {
    let j = last_dot(name);
    if j <= 0 {
        None
    } else {
        Some(name.subrange(j + 1, name.len() as int))
    }
}

/// The stem of a name: the part before its last `'.'`, or the whole
/// name when there is no dot or the only dot starts the name.
pub open spec fn spec_name_stem(name: Seq<char>) -> Seq<char> {
    let j = last_dot(name);
    if j <= 0 {
        name
    } else {
        name.subrange(0, j)
    }
}

/// The extension of the final component of a path.
pub open spec fn spec_extension(s: Seq<char>) -> Option<Seq<char>> {
    match spec_file_name(s) {
        Some(name) => spec_name_extension(name),
        None => None,
    }
}

pub open spec fn is_digit(c: char) -> bool {
    48 <= c as u32 && c as u32 <= 57
}

/// A file name of the shape `laravel-YYYY-MM-DD.log`.
pub open spec fn is_laravel_daily_name(n: Seq<char>) -> bool {
    &&& n.len() == 22
    &&& n.subrange(0, 8) == "laravel-"@
    &&& is_digit(n[8]) && is_digit(n[9]) && is_digit(n[10]) && is_digit(n[11])
    &&& n[12] == '-'
    &&& is_digit(n[13]) && is_digit(n[14])
    &&& n[15] == '-'
    &&& is_digit(n[16]) && is_digit(n[17])
    &&& n.subrange(18, 22) == ".log"@
}

/// A validated file system path.
#[derive(Debug, Clone, PartialEq, Eq, Hash)]
pub struct FilePath {
    value: String,
}

impl View for FilePath {
    type V = Seq<char>;

    closed spec fn view(&self) -> Seq<char> {
        self.value@
    }
}

impl FilePath {
    /// Creates a new `FilePath`; only the empty path is rejected.
    pub fn new(path: &str) -> (r: Result<Self, &'static str>)
        ensures
            r is Ok <==> path@.len() > 0,
            r is Ok ==> r->Ok_0@ == path@,
    {
        if path.unicode_len() == 0 {
            return Err("FilePath cannot be empty");
        }
        Ok(FilePath { value: String::from_str(path) })
    }

    /// Returns the path value.
    pub fn value(&self) -> (r: &str)
        ensures
            r@ == self@,
    {
        self.value.as_str()
    }

    /// Returns a duplicate of this path.
    pub fn duplicate(&self) -> (r: Self)
        ensures
            r@ == self@,
    {
        FilePath { value: self.value.clone() }
    }

    /// Returns the file name (the part after the last `'/'`).
    pub fn file_name(&self) -> (r: Option<String>)
        ensures
            r.deep_view() == spec_file_name(self@),
    {
        proof {
            lemma_last_slash_bounds(self@);
        }
        let n = self.value.as_str().unicode_len();
        let start: usize = match find_last_slash(self.value.as_str()) {
            Some(i) => i + 1,
            None => 0,
        };
        if start == n {
            return None;
        }
        Some(String::from_str(self.value.as_str().substring_char(start, n)))
    }

    /// Returns the parent directory (the part before the last `'/'`).
    pub fn parent(&self) -> (r: Option<String>)
        ensures
            r.deep_view() == spec_parent(self@),
    {
        match find_last_slash(self.value.as_str()) {
            Some(i) => {
                if i == 0 {
                    Some(String::from_str(self.value.as_str().substring_char(0, 1)))
                } else {
                    Some(String::from_str(self.value.as_str().substring_char(0, i)))
                }
            },
            None => None,
        }
    }

    /// Returns the file extension.
    pub fn extension(&self) -> (r: Option<String>)
        ensures
            r.deep_view() == spec_extension(self@),
    {
        let name = match self.file_name() {
            Some(n) => n,
            None => {
                return None;
            },
        };
        let m = name.as_str().unicode_len();
        match find_last_dot(name.as_str()) {
            Some(j) => {
                if j == 0 {
                    None
                } else {
                    Some(String::from_str(name.as_str().substring_char(j + 1, m)))
                }
            },
            None => None,
        }
    }

    /// Returns the file stem (name without extension).
    pub fn file_stem(&self) -> (r: Option<String>)
        ensures
            r.deep_view() == (match spec_file_name(self@) {
                Some(name) => Some(spec_name_stem(name)),
                None => None,
            }),
    {
        let name = match self.file_name() {
            Some(n) => n,
            None => {
                return None;
            },
        };
        match find_last_dot(name.as_str()) {
            Some(j) => {
                if j == 0 {
                    Some(name)
                } else {
                    Some(String::from_str(name.as_str().substring_char(0, j)))
                }
            },
            None => Some(name),
        }
    }

    /// Whether the extension, lower-cased, marks a log file.
    pub open spec fn spec_is_log_file(self) -> bool {
        match spec_extension(self@) {
            Some(e) => {
                let l = ascii_lower(e);
                l == "log"@ || l == "txt"@ || l == "out"@ || l == "err"@
            },
            None => false,
        }
    }

    /// Checks if this is a log file based on its extension.
    pub fn is_log_file(&self) -> (r: bool)
        ensures
            r == self.spec_is_log_file(),
    {
        match self.extension() {
            Some(e) => lower_eq(e.as_str(), "log") || lower_eq(e.as_str(), "txt") || lower_eq(
                e.as_str(),
                "out",
            ) || lower_eq(e.as_str(), "err"),
            None => false,
        }
    }

    /// Checks if the file name matches the Laravel daily log pattern
    /// `laravel-YYYY-MM-DD.log`.
    pub fn is_laravel_daily_log(&self) -> (r: bool)
        ensures
            r == (match spec_file_name(self@) {
                Some(name) => is_laravel_daily_name(name),
                None => false,
            }),
    {
        let name = match self.file_name() {
            Some(n) => n,
            None => {
                return false;
            },
        };
        is_laravel_daily_name_exec(name.as_str())
    }

    /// Returns the path as a string.
    pub fn as_str(&self) -> (r: Option<&str>)
        ensures
            r.deep_view() == Some(self@),
    {
        Some(self.value.as_str())
    }
}

/// Decides [`is_laravel_daily_name`].
pub fn is_laravel_daily_name_exec(name: &str) -> (r: bool)
    ensures
        r == is_laravel_daily_name(name@),
{
    if name.unicode_len() != 22 {
        return false;
    }
    if !crate::text::str_starts_with(name, "laravel-") {
        proof {
            reveal_strlit("laravel-");
            assert(name@.subrange(0, 8) == "laravel-"@ ==> crate::text::is_prefix(
                "laravel-"@,
                name@,
            ));
        }
        return false;
    }
    proof {
        reveal_strlit("laravel-");
        assert(name@.subrange(0, 8) == name@.subrange(0, "laravel-"@.len() as int));
    }
    let c8 = name.get_char(8) as u32;
    let c9 = name.get_char(9) as u32;
    let c10 = name.get_char(10) as u32;
    let c11 = name.get_char(11) as u32;
    let c13 = name.get_char(13) as u32;
    let c14 = name.get_char(14) as u32;
    let c16 = name.get_char(16) as u32;
    let c17 = name.get_char(17) as u32;
    if !(48 <= c8 && c8 <= 57 && 48 <= c9 && c9 <= 57 && 48 <= c10 && c10 <= 57 && 48 <= c11 && c11
        <= 57) {
        return false;
    }
    if name.get_char(12) != '-' {
        return false;
    }
    if !(48 <= c13 && c13 <= 57 && 48 <= c14 && c14 <= 57) {
        return false;
    }
    if name.get_char(15) != '-' {
        return false;
    }
    if !(48 <= c16 && c16 <= 57 && 48 <= c17 && c17 <= 57) {
        return false;
    }
    let tail = name.substring_char(18, 22);
    if !crate::text::str_eq(tail, ".log") {
        return false;
    }
    true
}

} // verus!
