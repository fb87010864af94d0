//! File names.
use vstd::prelude::*;

use crate::text::chars_of;

verus! {

/// A path below a directory. An absolute path stays as it is.
pub open spec fn joined_path(directory: Seq<char>, name: Seq<char>) -> Seq<char> {
    if name.len() > 0 && name[0] == '/' {
        name
    } else if directory.len() == 0 || directory.last() == '/' {
        directory + name
    } else {
        directory + "/"@ + name
    }
}

/// A path below a directory. An absolute path stays as it is.
pub fn join_path(directory: &str, name: &str) -> (path: String)
    ensures
        path@ == joined_path(directory@, name@),
{
    let parts = chars_of(directory);
    let tail = chars_of(name);
    if tail.len() > 0 && tail[0] == '/' {
        return name.to_owned();
    }
    let mut path: String = directory.to_owned();
    if parts.len() > 0 && parts[parts.len() - 1] != '/' {
        path.push_str("/");
    }
    path.push_str(name);
    path
}

/// A path with more behind its last part.
pub fn with_suffix(path: &str, suffix: &str) -> (result: String)
    ensures
        result@ == path@ + suffix@,
{
    let mut result: String = path.to_owned();
    result.push_str(suffix);
    result
}

/// A name is put behind its directory with exactly one slash between them; an
/// absolute name stands for itself.
pub proof fn names_go_behind_their_directory(directory: Seq<char>, name: Seq<char>)
    ensures
        name.len() > 0 && name[0] == '/' ==> joined_path(directory, name) == name,
        !(name.len() > 0 && name[0] == '/') && directory.len() == 0 ==> joined_path(directory, name)
            == name,
        !(name.len() > 0 && name[0] == '/') && directory.len() > 0 && directory.last() == '/'
            ==> joined_path(directory, name) == directory + name,
        !(name.len() > 0 && name[0] == '/') && directory.len() > 0 && directory.last() != '/'
            ==> joined_path(directory, name) == directory + seq!['/'] + name,
{
    reveal_strlit("/");
    assert("/"@ =~= seq!['/']);
    assert(Seq::<char>::empty() + name =~= name);
    if directory.len() == 0 {
        assert(directory + name =~= name);
    }
}

} // verus!
