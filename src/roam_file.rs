//! A file of the org-roam system, identified by its absolute path.
use vstd::prelude::*;

verus! {

/// A path is absolute when it starts at the root directory.
pub open spec fn is_absolute_path(p: Seq<char>) -> bool {
    p.len() > 0 && p[0] == '/'
}

/// The storage form of a path: the path between a pair of double quotes, as the
/// note store records file paths.
pub open spec fn storage_key(p: Seq<char>) -> Seq<char> {
    seq!['"'] + p + seq!['"']
}

/// The path that a storage key holds: the text between exactly one leading and
/// one trailing double quote, or nothing when either quote is missing.
pub open spec fn decode_storage_key(k: Seq<char>) -> Option<Seq<char>> {
    if k.len() >= 2 && k[0] == '"' && k[k.len() - 1] == '"' {
        Some(k.subrange(1, k.len() - 1))
    } else {
        None
    }
}

/// Why a value could not be made into a [`RoamFile`].
#[derive(Clone, Copy, Debug, PartialEq, Eq, Structural)]
pub enum PathError {
    /// The path is not absolute and could not be resolved to an absolute one.
    Unresolvable,
    /// A value read from the note store is not a path between double quotes.
    MalformedStorageKey,
}

/// A file in the org-roam system. The path it holds is used verbatim: two
/// files are the same exactly when their paths are equal.
#[derive(Clone, Debug, Eq, Hash)]
pub struct RoamFile {
    path: String,
}

impl View for RoamFile {
    type V = Seq<char>;

    closed spec fn view(&self) -> Seq<char> {
        self.path@
    }
}

impl PartialEq for RoamFile {
    fn eq(&self, o: &RoamFile) -> (r: bool) {
        self.path == o.path
    }
}

impl vstd::std_specs::cmp::PartialEqSpecImpl for RoamFile {
    open spec fn obeys_eq_spec() -> bool {
        true
    }

    open spec fn eq_spec(&self, o: &RoamFile) -> bool {
        self@ == o@
    }
}

/// Whether `path` is absolute, that is, starts with `/`.
pub fn is_absolute(path: &str) -> (r: bool)
    ensures
        r == is_absolute_path(path@),
{
    path.unicode_len() > 0 && path.get_char(0) == '/'
}

impl RoamFile {
    /// The file at an absolute path, taken as it is. A relative path is
    /// refused: it must first be resolved against the file system.
    pub fn from_absolute(path: String) -> (r: Result<RoamFile, PathError>)
        ensures
            r is Ok <==> is_absolute_path(path@),
            r matches Ok(f) ==> f@ == path@,
            r matches Err(e) ==> e == PathError::Unresolvable,
    {
        if is_absolute(path.as_str()) {
            Ok(RoamFile { path })
        } else {
            Err(PathError::Unresolvable)
        }
    }

    /// The path of the file.
    pub fn as_str(&self) -> (r: &str)
        ensures
            r@ == self@,
    {
        self.path.as_str()
    }

    /// The display form of the file: its path, without quotes.
    pub fn display(&self) -> (r: String)
        ensures
            r@ == self@,
    {
        self.path.clone()
    }

    /// A second value of the same file.
    pub fn copy(&self) -> (r: RoamFile)
        ensures
            r@ == self@,
    {
        RoamFile { path: self.path.clone() }
    }

    /// The storage form of the file: its path between double quotes, the key
    /// under which the note store records it.
    pub fn to_storage_key(&self) -> (r: String)
        ensures
            r@ == storage_key(self@),
    {
        let quote = "\"";
        proof {
            reveal_strlit("\"");
        }
        let r = String::from_str(quote).concat(self.path.as_str()).concat(quote);
        assert(r@ =~= storage_key(self@));
        r
    }

    /// The file whose storage form is `key`: exactly one leading and one
    /// trailing double quote are removed, and both must be there.
    pub fn from_storage_key(key: &str) -> (r: Result<RoamFile, PathError>)
        ensures
            r is Ok <==> decode_storage_key(key@) is Some,
            r matches Ok(f) ==> Some(f@) == decode_storage_key(key@),
            r matches Err(e) ==> e == PathError::MalformedStorageKey,
    {
        let n: usize = key.unicode_len();
        if n >= 2 && key.get_char(0) == '"' && key.get_char(n - 1) == '"' {
            let inner = key.substring_char(1, n - 1);
            Ok(RoamFile { path: String::from_str(inner) })
        } else {
            Err(PathError::MalformedStorageKey)
        }
    }
}

/// Decoding the storage form of a path gives back the path.
pub proof fn lemma_storage_round_trip(p: Seq<char>)
    ensures
        decode_storage_key(storage_key(p)) == Some(p),
{
    let k = storage_key(p);
    assert(k.subrange(1, k.len() - 1) =~= p);
}

} // verus!
