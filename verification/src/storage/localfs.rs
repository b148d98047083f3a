//! The file-system store's mapping from object keys to paths under its root,
//! and the scope of a listing.
use crate::error::ServiceError;
use crate::storage::b2::{is_slash_char, strip_leading_slashes};
use crate::text::{
    append_chars, chars_of, contains_char, copy_range, lemma_trim_start_all,
    lemma_trim_start_keeps_other, lemma_trim_start_noop, string_of, trim_start_by,
};
use vstd::prelude::*;

verus! {

broadcast use vstd::string::group_string_axioms;

/// A store that keeps each object in a file under `root`.
#[derive(Clone, Debug, PartialEq, Eq)]
pub struct LocalFileStore {
    root: String,
}

/// The first segment of `clean` is `.`.
pub open spec fn starts_with_current_dir(clean: Seq<char>) -> bool {
    clean.len() >= 1 && clean[0] == '.' && (clean.len() == 1 || clean[1] == '/')
}

/// `..` stands as a whole segment of `s`.
pub open spec fn has_parent_dir(s: Seq<char>) -> bool {
    crate::storage::b2::has_parent_segment(s)
}

/// The key without its leading slashes, if it names a file below the root: not
/// empty, no backslash, and only plain segments (`..` anywhere, or `.` first,
/// would leave or name the directory itself).
pub open spec fn relative_key(key: Seq<char>) -> Option<Seq<char>> {
    let clean = trim_start_by(key, |c: char| is_slash_char(c));
    if clean.len() == 0 || clean.contains('\\') || has_parent_dir(clean)
        || starts_with_current_dir(clean) {
        None
    } else {
        Some(clean)
    }
}

/// `root` joined with a relative path, with one `/` between them.
pub open spec fn join_path(root: Seq<char>, relative: Seq<char>) -> Seq<char> {
    if root.len() > 0 && root.last() == '/' {
        root + relative
    } else {
        root + "/"@ + relative
    }
}

/// The directory part of a prefix: up to and including its last `/`; empty if it has none.
pub open spec fn directory_of(prefix: Seq<char>) -> Seq<char>
    decreases prefix.len(),
{
    if prefix.len() == 0 || prefix.last() == '/' {
        prefix
    } else {
        directory_of(prefix.drop_last())
    }
}

/// What a listing walks: the key prefix to match, and the directory to walk,
/// `None` meaning the root.
#[derive(Clone, Debug, PartialEq, Eq)]
pub struct ListingScope {
    pub prefix: String,
    pub directory: Option<String>,
}

impl LocalFileStore {
    /// A store rooted at `root`; an empty root is an invalid key.
    pub fn with_root(root: &str) -> (r: Result<LocalFileStore, ServiceError>)
        ensures
            r is Ok <==> root@.len() > 0,
            r matches Ok(s) ==> s.root_path() == root@,
            r matches Err(e) ==> e == ServiceError::InvalidObjectKey,
    {
        if root.is_empty() {
            Err(ServiceError::InvalidObjectKey)
        } else {
            Ok(LocalFileStore { root: root.to_string() })
        }
    }

    pub closed spec fn root_path(&self) -> Seq<char> {
        self.root@
    }

    pub fn root(&self) -> (r: &str)
        ensures
            r@ == self.root_path(),
    {
        self.root.as_str()
    }

    /// The path of the file that holds `key`; `InvalidObjectKey` for a key that
    /// is empty, holds a backslash, or has a `..` segment or a leading `.` segment.
    pub fn path_for_key(&self, key: &str) -> (r: Result<String, ServiceError>)
        ensures
            r is Ok <==> relative_key(key@) is Some,
            r matches Ok(p) ==> p@ == join_path(self.root_path(), relative_key(key@)->0),
            r matches Err(e) ==> e == ServiceError::InvalidObjectKey,
    {
        let chars = chars_of(key);
        let clean = strip_leading_slashes(&chars);
        if clean.len() == 0 || contains_char(&clean, '\\') || crate::storage::b2::parent_segment(
            &clean,
        ) || (clean[0] == '.' && (clean.len() == 1 || clean[1] == '/')) {
            return Err(ServiceError::InvalidObjectKey);
        }
        let mut path = chars_of(self.root.as_str());
        if !(path.len() > 0 && path[path.len() - 1] == '/') {
            path.push('/');
            proof {
                reveal_strlit("/");
            }
        }
        append_chars(&mut path, &clean);
        proof {
            assert(path@ =~= join_path(self.root_path(), clean@));
        }
        Ok(string_of(&path))
    }

    /// What a listing of `prefix` walks: the prefix without leading slashes,
    /// and, when it names a directory part, that directory's path.
    pub fn listing_scope(&self, prefix: &str) -> (r: Result<ListingScope, ServiceError>)
        ensures
            ({
                let clean = trim_start_by(prefix@, |c: char| is_slash_char(c));
                let dir = directory_of(clean);
                &&& (dir.len() == 0 ==> (r matches Ok(s) && s.prefix@ == clean && s.directory
                    is None))
                &&& (dir.len() > 0 && relative_key(dir) is Some ==> (r matches Ok(s) && s.prefix@
                    == clean && (s.directory matches Some(d) && d@ == join_path(
                    self.root_path(),
                    relative_key(dir)->0,
                ))))
                &&& (dir.len() > 0 && relative_key(dir) is None ==> r
                    == Err::<ListingScope, ServiceError>(ServiceError::InvalidObjectKey))
            }),
    {
        let chars = chars_of(prefix);
        let clean = strip_leading_slashes(&chars);
        let mut end = clean.len();
        proof {
            assert(clean@.take(clean.len() as int) =~= clean@);
        }
        while end > 0 && clean[end - 1] != '/'
            invariant
                end <= clean.len(),
                directory_of(clean@) == directory_of(clean@.take(end as int)),
            decreases end,
        {
            proof {
                assert(clean@.take(end as int).drop_last() =~= clean@.take(end - 1));
            }
            end = end - 1;
        }
        proof {
            assert(clean@.take(clean.len() as int) =~= clean@);
            if end > 0 {
                assert(clean@.take(end as int).last() == clean@[end - 1]);
            }
        }
        let directory = copy_range(&clean, 0, end);
        proof {
            assert(directory@ =~= clean@.take(end as int));
        }
        let clean_string = string_of(&clean);
        if directory.len() == 0 {
            return Ok(ListingScope { prefix: clean_string, directory: None });
        }
        let dir_string = string_of(&directory);
        match self.path_for_key(dir_string.as_str()) {
            Ok(path) => {
                proof {
                    crate::text::lemma_trim_start_first(chars@, |c: char| is_slash_char(c));
                    assert(directory@[0] == clean@[0]);
                    crate::text::lemma_trim_start_noop(directory@, |c: char| is_slash_char(c));
                }
                Ok(ListingScope { prefix: clean_string, directory: Some(path) })
            },
            Err(e) => Err(e),
        }
    }
}


/// Which keys name no file below the root: an empty key or one of slashes
/// only, a key holding a backslash anywhere, and, for a key that does not
/// start with a slash, one whose first segment is `.` or `..`.
pub proof fn lemma_keys_outside_the_root(key: Seq<char>)
    ensures
        (forall|k: int| 0 <= k < key.len() ==> key[k] == '/') ==> relative_key(key) is None,
        key.contains('\\') ==> relative_key(key) is None,
        key.len() >= 1 && key[0] == '.' && (key.len() == 1 || key[1] == '/') ==> relative_key(key)
            is None,
        key.len() >= 2 && key[0] == '.' && key[1] == '.' && (key.len() == 2 || key[2] == '/')
            ==> relative_key(key) is None,
{
    let p = |c: char| is_slash_char(c);
    if forall|k: int| 0 <= k < key.len() ==> key[k] == '/' {
        assert forall|k: int| 0 <= k < key.len() implies p(#[trigger] key[k]) by {}
        lemma_trim_start_all(key, p);
    }
    if key.contains('\\') {
        let i = choose|i: int| 0 <= i < key.len() && key[i] == '\\';
        lemma_trim_start_keeps_other(key, p, i);
    }
    if key.len() >= 1 && key[0] == '.' {
        lemma_trim_start_noop(key, p);
        if key.len() >= 2 && key[1] == '.' && (key.len() == 2 || key[2] == '/') {
            assert(crate::storage::b2::has_parent_segment(trim_start_by(key, p)));
        }
    }
}


/// The directory part of a prefix is the prefix up to and including its last
/// `/`: it starts the prefix, is empty or ends with `/`, and what follows it
/// holds no `/`.
pub proof fn lemma_directory_of_prefix(prefix: Seq<char>)
    ensures
        directory_of(prefix).len() <= prefix.len(),
        prefix.take(directory_of(prefix).len() as int) == directory_of(prefix),
        directory_of(prefix).len() == 0 || directory_of(prefix).last() == '/',
        forall|k: int| directory_of(prefix).len() <= k < prefix.len() ==> prefix[k] != '/',
    decreases prefix.len(),
{
    if prefix.len() == 0 || prefix.last() == '/' {
        assert(prefix.take(prefix.len() as int) =~= prefix);
    } else {
        let rest = prefix.drop_last();
        lemma_directory_of_prefix(rest);
        let d = directory_of(rest);
        assert(prefix.take(d.len() as int) =~= rest.take(d.len() as int));
        assert forall|k: int| d.len() <= k < prefix.len() implies prefix[k] != '/' by {
            if k < rest.len() {
                assert(prefix[k] == rest[k]);
            }
        }
    }
}

} // verus!
