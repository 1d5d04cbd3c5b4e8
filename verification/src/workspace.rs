//! The layout of an analysis directory: the kinds of queries, the file names
//! that tell which prefix a description uses, and the formats of files.
use vstd::prelude::*;
use crate::database::MemDatabase;
use crate::error::{ConversionError, DataLoadError};
use crate::string_map::StringMap;
use crate::text::{char_rindex, chars_of, rfind_char, string_of};

verus! {

/// The kinds of queries, by the directory they are kept in.
#[derive(Debug, Hash, PartialEq, Eq, Structural, Clone, Copy)]
pub enum QueryKind {
    Regulation,
    Attack,
    Requirement,
    Reasoner,
    ExtraData,
    SourceCode,
    CodeGenData,
}

/// Where the database is kept.
#[derive(Debug)]
pub enum DBKind {
    InMemory { dir: String },
}

/// A database of one of the kinds.
pub enum DBInstance {
    MemDatabase(MemDatabase),
}

/// The formats of description files.
#[derive(Debug, PartialEq, Eq, Structural, Clone, Copy)]
pub enum Format {
    JSON,
    YAML,
}

/// The subdirectories of an analysis directory that hold queries, with the
/// kind of the queries in each.
pub fn query_subdirectories() -> (r: Vec<(String, QueryKind)>)
    ensures
        r@.len() == 5,
        r@[0].0@ == "attack_trees"@ && r@[0].1 == QueryKind::Attack,
        r@[1].0@ == "reasoner"@ && r@[1].1 == QueryKind::Reasoner,
        r@[2].0@ == "regulations"@ && r@[2].1 == QueryKind::Regulation,
        r@[3].0@ == "report_data"@ && r@[3].1 == QueryKind::ExtraData,
        r@[4].0@ == "requirements"@ && r@[4].1 == QueryKind::Requirement,
{
    let mut r = Vec::new();
    r.push((String::from_str("attack_trees"), QueryKind::Attack));
    r.push((String::from_str("reasoner"), QueryKind::Reasoner));
    r.push((String::from_str("regulations"), QueryKind::Regulation));
    r.push((String::from_str("report_data"), QueryKind::ExtraData));
    r.push((String::from_str("requirements"), QueryKind::Requirement));
    r
}

/// The final component of a path, as `std::path::Path::file_name` gives it.
pub uninterp spec fn path_file_name(path: Seq<char>) -> Option<Seq<char>>;

/// `std::path::Path::file_name`: the final component of the path, `None`
/// where the path ends in `..` or has no component. Claimed: the result is
/// `path_file_name` of the path.
#[verifier::external_body]
pub(crate) fn file_name_of(path: &str) -> (r: Option<String>)
    ensures
        match r {
            Some(s) => path_file_name(path@) == Some(s@),
            None => path_file_name(path@) is None,
        },
{
    match std::path::Path::new(path).file_name() {
        Some(name) => Some(name.to_string_lossy().into_owned()),
        None => None,
    }
}

/// The stem of a file name, as `Path::file_stem` documents it: the whole
/// name where it has no `.` but a leading one, else the part before the
/// last `.`.
pub open spec fn stem_of(name: Seq<char>) -> Seq<char> {
    match char_rindex(name, '.') {
        Some(p) => if p == 0 {
            name
        } else {
            name.take(p)
        },
        None => name,
    }
}

/// The extension of a file name, as `Path::extension` documents it: the
/// part after the last `.`, unless the only `.` leads the name.
pub open spec fn extension_of(name: Seq<char>) -> Option<Seq<char>> {
    match char_rindex(name, '.') {
        Some(p) => if p == 0 {
            None
        } else {
            Some(name.skip(p + 1))
        },
        None => None,
    }
}

/// The placeholder in a file stem: what follows its last `_`, if not empty.
pub open spec fn placeholder_of(stem: Seq<char>) -> Option<Seq<char>> {
    match char_rindex(stem, '_') {
        Some(p) => if p + 1 < stem.len() {
            Some(stem.skip(p + 1))
        } else {
            None
        },
        None => None,
    }
}

/// The placeholder in the file name of a path.
pub open spec fn path_placeholder(path: Seq<char>) -> Option<Seq<char>> {
    match path_file_name(path) {
        Some(name) => placeholder_of(stem_of(name)),
        None => None,
    }
}

/// The extension in the file name of a path.
pub open spec fn path_extension(path: Seq<char>) -> Option<Seq<char>> {
    match path_file_name(path) {
        Some(name) => extension_of(name),
        None => None,
    }
}

/// The stem of a file name.
pub fn file_stem(name: &str) -> (r: String)
    ensures
        r@ == stem_of(name@),
{
    let v = chars_of(name);
    let n = v.len();
    proof {
        assert(v@.subrange(0, n as int) =~= v@);
    }
    match rfind_char(&v, 0, n, '.') {
        Some(p) => if p == 0 {
            string_of(&v, 0, n)
        } else {
            proof {
                assert(v@.take(p as int) =~= v@.subrange(0, p as int));
            }
            string_of(&v, 0, p)
        },
        None => string_of(&v, 0, n),
    }
}

/// The extension of a file name.
pub fn file_extension(name: &str) -> (r: Option<String>)
    ensures
        match extension_of(name@) {
            Some(e) => r matches Some(s) && s@ == e,
            None => r is None,
        },
{
    let v = chars_of(name);
    let n = v.len();
    proof {
        assert(v@.subrange(0, n as int) =~= v@);
    }
    match rfind_char(&v, 0, n, '.') {
        Some(p) => if p == 0 {
            None
        } else {
            proof {
                assert(v@.skip(p + 1) =~= v@.subrange(p + 1, n as int));
            }
            Some(string_of(&v, p + 1, n))
        },
        None => None,
    }
}

/// The placeholder in a file stem.
pub fn placeholder_from_stem(stem: &str) -> (r: Option<String>)
    ensures
        match placeholder_of(stem@) {
            Some(p) => r matches Some(s) && s@ == p,
            None => r is None,
        },
{
    let v = chars_of(stem);
    let n = v.len();
    proof {
        assert(v@.subrange(0, n as int) =~= v@);
    }
    match rfind_char(&v, 0, n, '_') {
        Some(p) => if p + 1 < n {
            proof {
                assert(v@.skip(p + 1) =~= v@.subrange(p + 1, n as int));
            }
            Some(string_of(&v, p + 1, n))
        } else {
            None
        },
        None => None,
    }
}

/// The placeholder in the file name of a path: what follows the last `_`
/// of its stem. It names the prefix that the description in the file uses.
pub fn extract_placeholder_from_path(path: &str) -> (r: Option<String>)
    ensures
        match path_placeholder(path@) {
            Some(p) => r matches Some(s) && s@ == p,
            None => r is None,
        },
{
    match file_name_of(path) {
        Some(name) => {
            let stem = file_stem(name.as_str());
            placeholder_from_stem(stem.as_str())
        },
        None => None,
    }
}

/// The extension in the file name of a path.
pub fn extension_from_path(path: &str) -> (r: Option<String>)
    ensures
        match path_extension(path@) {
            Some(e) => r matches Some(s) && s@ == e,
            None => r is None,
        },
{
    match file_name_of(path) {
        Some(name) => file_extension(name.as_str()),
        None => None,
    }
}

/// The format for a file extension: `json`, or `yaml` and `yml`.
pub open spec fn format_for(ext: Option<Seq<char>>) -> Option<Format> {
    match ext {
        Some(e) => if e == "json"@ {
            Some(Format::JSON)
        } else if e == "yaml"@ || e == "yml"@ {
            Some(Format::YAML)
        } else {
            None
        },
        None => None,
    }
}

/// The format of a description file by its extension; an unknown extension
/// is refused with the extension (empty where there is none).
pub fn format_of_path(path: &str) -> (r: Result<Format, ConversionError>)
    ensures
        match format_for(path_extension(path@)) {
            Some(f) => r == Ok::<Format, ConversionError>(f),
            None => r matches Err(ConversionError::UnsupportedExtensionError(s)) && s@ == match path_extension(path@) {
                Some(e) => e,
                None => Seq::<char>::empty(),
            },
        },
{
    match extension_from_path(path) {
        Some(ext) => {
            if ext == String::from_str("json") {
                Ok(Format::JSON)
            } else if ext == String::from_str("yaml") || ext == String::from_str("yml") {
                Ok(Format::YAML)
            } else {
                Err(ConversionError::UnsupportedExtensionError(ext))
            }
        },
        None => {
            let empty = String::new();
            Err(ConversionError::UnsupportedExtensionError(empty))
        },
    }
}

/// A character in ASCII lower case.
pub open spec fn ascii_lower(c: char) -> char {
    if 'A' <= c && c <= 'Z' {
        ((c as u32) + 32) as char
    } else {
        c
    }
}

/// Equality up to ASCII case, as `str::eq_ignore_ascii_case` tests it.
pub open spec fn eq_ignore_ascii_case(a: Seq<char>, b: Seq<char>) -> bool {
    a.len() == b.len() && forall|i: int| 0 <= i < a.len() ==> ascii_lower(a[i]) == ascii_lower(b[i])
}

fn lower(c: char) -> (r: char)
    ensures
        r == ascii_lower(c),
{
    if 'A' <= c && c <= 'Z' {
        let b = c as u8;
        (b + 32) as char
    } else {
        c
    }
}

/// Equality of two strings up to ASCII case.
pub fn equal_ignoring_ascii_case(a: &str, b: &str) -> (r: bool)
    ensures
        r == eq_ignore_ascii_case(a@, b@),
{
    let x = chars_of(a);
    let y = chars_of(b);
    if x.len() != y.len() {
        return false;
    }
    let n = x.len();
    let mut i: usize = 0;
    while i < n
        invariant
            n == x@.len(),
            n == y@.len(),
            x@ == a@,
            y@ == b@,
            i <= n,
            forall|j: int| 0 <= j < i ==> ascii_lower(x@[j]) == ascii_lower(y@[j]),
        decreases n - i,
    {
        if lower(x[i]) != lower(y[i]) {
            return false;
        }
        i = i + 1;
    }
    true
}

/// A file extension is one of a query: `rq` or `sparql`, in any ASCII case.
pub fn is_query_extension(ext: &str) -> (r: bool)
    ensures
        r == (eq_ignore_ascii_case("rq"@, ext@) || eq_ignore_ascii_case("sparql"@, ext@)),
{
    equal_ignoring_ascii_case("rq", ext) || equal_ignoring_ascii_case("sparql", ext)
}

/// The prefix under which the description in a file is loaded: the one
/// that the file's placeholder maps to.
pub fn file_prefix_for(file_prefixes: &StringMap, path: &str) -> (r: Result<String, DataLoadError>)
    ensures
        match path_placeholder(path@) {
            Some(p) => if file_prefixes@.contains_key(p) {
                r matches Ok(s) && s@ == file_prefixes@[p]
            } else {
                r matches Err(DataLoadError::FileExtensionHasNoPrefixError(s)) && s@ == p
            },
            None => r matches Err(DataLoadError::FileWithNoExtensionError(s)) && s@ == path@,
        },
{
    match extract_placeholder_from_path(path) {
        Some(placeholder) => match file_prefixes.get(placeholder.as_str()) {
            Some(prefix) => Ok(prefix.clone()),
            None => Err(DataLoadError::FileExtensionHasNoPrefixError(placeholder)),
        },
        None => Err(DataLoadError::FileWithNoExtensionError(String::from_str(path))),
    }
}

} // verus!
