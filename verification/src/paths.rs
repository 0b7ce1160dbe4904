//! File names and extensions of slash-separated paths.

use vstd::prelude::*;

use crate::utils::split_on;

verus! {

/// The components of a path that name something: its non-empty pieces
/// between slashes other than `.`.
pub open spec fn named_components(path: Seq<char>) -> Seq<Seq<char>> {
    split_on(path, '/').filter(|c: Seq<char>| c.len() > 0 && c != seq!['.'])
}

/// The file name of a path: its last component, unless the path has none or
/// ends in `..`.
pub open spec fn file_name_of(path: Seq<char>) -> Option<Seq<char>> {
    let comps = named_components(path);
    if comps.len() == 0 || comps.last() == seq!['.', '.'] {
        None
    } else {
        Some(comps.last())
    }
}

/// The index of the last `.` in `s`, or -1 where it has none.
pub open spec fn last_dot(s: Seq<char>) -> int
    decreases s.len(),
{
    if s.len() == 0 {
        -1
    } else if s.last() == '.' {
        s.len() - 1
    } else {
        last_dot(s.drop_last())
    }
}

/// The extension of a path: what follows the last `.` of its file name,
/// where that dot is not the name's first character.
pub open spec fn extension_of(path: Seq<char>) -> Option<Seq<char>> {
    match file_name_of(path) {
        Some(name) => {
            let d = last_dot(name);
            if d <= 0 {
                None
            } else {
                Some(name.subrange(d + 1, name.len() as int))
            }
        },
        None => None,
    }
}

/// The extension of `path`, by `std::path::Path::extension`.
///
/// Its documentation gives the extension as the part of the file name after
/// its final `.`, none where the name has no `.` or begins with its only one,
/// and the file name as the last component once repeated separators and `.`
/// components are normalized away, none where that is `..` or absent: that is
/// `extension_of`, which this contract claims.
#[verifier::external_body]
pub fn path_extension(path: &str) -> (ext: Option<String>)
    ensures
        match ext {
            Some(e) => extension_of(path@) == Some(e@),
            None => extension_of(path@) is None,
        },
{
    match std::path::Path::new(path).extension() {
        Some(e) => Some(e.to_string_lossy().into_owned()),
        None => None,
    }
}

/// Tells whether the file at `path` is a service definition: its extension
/// is exactly `toml`.
pub fn is_service_file(path: &str) -> (b: bool)
    ensures
        b == (extension_of(path@) == Some("toml"@)),
{
    match path_extension(path) {
        Some(e) => {
            let toml = "toml".to_owned();
            e == toml
        },
        None => false,
    }
}

} // verus!
