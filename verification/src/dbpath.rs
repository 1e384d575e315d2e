//! Where a database lives: its filesystem path and that path's file name.
use crate::errors::UtilesError;
use vstd::prelude::*;
use vstd::string::StringExecFns;

verus! {

broadcast use vstd::string::group_string_axioms;

/// The final component of a path given as text, as `std::path::Path`
/// reads it on the platform the library is built for; `None` where the
/// path has no such component.
pub uninterp spec fn path_file_name(path: Seq<char>) -> Option<Seq<char>>;

/// The path ends in a `..` component.
pub open spec fn ends_in_parent_dir(p: Seq<char>) -> bool {
    ||| p == seq!['.', '.']
    ||| (p.len() >= 3 && p.subrange(p.len() - 3, p.len() as int) == seq!['/', '.', '.'])
}

/// Calls `std::path::Path::file_name` on `path` and gives the name back as
/// text. The result is the named `path_file_name(path)`; as the
/// documentation states, a path that ends in `..` has no file name. What
/// else makes a component final (trailing separators, `.` components) is
/// left to the name.
#[verifier::external_body]
fn file_name_of(path: &str) -> (r: Option<String>)
    ensures
        match r {
            Some(n) => path_file_name(path@) == Some(n@),
            None => path_file_name(path@) is None,
        },
        ends_in_parent_dir(path@) ==> r is None,
{
    let name = std::path::Path::new(path).file_name()?;
    Some(name.to_string_lossy().into_owned())
}

/// A database file: its path and the path's file name.
#[derive(Debug, Clone)]
pub struct DbPath {
    /// The filesystem path of the database file.
    pub fspath: String,
    /// The file name of the database file (the path's last component).
    pub filename: String,
}

/// A database file: its path and the path's file name.
#[derive(Debug, Clone)]
pub struct DbFspath {
    /// The filesystem path of the database file.
    pub fspath: String,
    /// The file name of the database file (the path's last component).
    pub filename: String,
}

impl DbPath {
    /// The database at `fspath`, which must have a file name.
    pub fn new(fspath: &str) -> (r: DbPath)
        requires
            path_file_name(fspath@) is Some,
        ensures
            r.fspath@ == fspath@,
            Some(r.filename@) == path_file_name(fspath@),
    {
        let filename = match file_name_of(fspath) {
            Some(n) => n,
            None => {
                assert(false);
                String::new()
            },
        };
        DbPath { fspath: String::from_str(fspath), filename }
    }

    /// The in-memory database.
    pub fn memory() -> (r: DbPath)
        ensures
            r.fspath@ == ":memory:"@,
            r.filename@ == ":memory:"@,
    {
        DbPath { fspath: String::from_str(":memory:"), filename: String::from_str(":memory:") }
    }

    /// The path, as text.
    pub fn to_string(&self) -> (r: String)
        ensures
            r@ == self.fspath@,
    {
        self.fspath.clone()
    }
}

impl DbFspath {
    /// The database at `fspath`, which must have a file name.
    pub fn new(fspath: &str) -> (r: DbFspath)
        requires
            path_file_name(fspath@) is Some,
        ensures
            r.fspath@ == fspath@,
            Some(r.filename@) == path_file_name(fspath@),
    {
        let filename = match file_name_of(fspath) {
            Some(n) => n,
            None => {
                assert(false);
                String::new()
            },
        };
        DbFspath { fspath: String::from_str(fspath), filename }
    }

    /// The database at `fspath`, or an error where the path has no file name.
    pub fn from_path(fspath: &str) -> (r: Result<DbFspath, UtilesError>)
        ensures
            match r {
                Ok(d) => d.fspath@ == fspath@ && Some(d.filename@) == path_file_name(fspath@),
                Err(e) => path_file_name(fspath@) is None && (e matches UtilesError::InvalidFspath(
                    m,
                ) && m@ == "DbFspath: invalid filename"@),
            },
    {
        match file_name_of(fspath) {
            Some(_) => Ok(DbFspath::new(fspath)),
            None => Err(UtilesError::InvalidFspath(String::from_str("DbFspath: invalid filename"))),
        }
    }
}

/// The database at `p`, or an error where the path has no file name.
pub fn pathlike2dbpath(p: &str) -> (r: Result<DbPath, UtilesError>)
    ensures
        match r {
            Ok(d) => d.fspath@ == p@ && Some(d.filename@) == path_file_name(p@),
            Err(e) => path_file_name(p@) is None && (e matches UtilesError::InvalidFspath(m)
                && m@ == "pathlike2dbpath: invalid filename"@),
        },
{
    match file_name_of(p) {
        Some(_) => Ok(DbPath::new(p)),
        None => Err(UtilesError::InvalidFspath(String::from_str("pathlike2dbpath: invalid filename"))),
    }
}

/// Something that is backed by a database file.
pub trait DbPathTrait {
    /// The database file, as a spec value.
    spec fn spec_db_path(&self) -> DbPath;

    /// The database file.
    fn db_path(&self) -> (r: &DbPath)
        ensures
            *r == self.spec_db_path(),
    ;

    /// The database file's path.
    fn filepath(&self) -> (r: &str)
        ensures
            r@ == self.spec_db_path().fspath@,
    {
        self.db_path().fspath.as_str()
    }

    /// The database file's name.
    fn filename(&self) -> (r: &str)
        ensures
            r@ == self.spec_db_path().filename@,
    {
        self.db_path().filename.as_str()
    }
}

impl DbPathTrait for DbPath {
    open spec fn spec_db_path(&self) -> DbPath {
        *self
    }

    fn db_path(&self) -> (r: &DbPath) {
        self
    }
}

} // verus!
