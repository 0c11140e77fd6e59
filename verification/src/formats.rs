//! Which files take part in synchronization, and how each is chunked.
//!
//! A path is classified by the extension of its file name, compared without
//! regard to ASCII case, and by a short list of bare file names.

use vstd::prelude::*;
use vstd::string::*;
use crate::models::FileFormat;
use crate::text::{chars_eq, sub_chars, to_chars, views};

verus! {

/// The position just after the last `/` of `path`, or 0 where there is none.
pub open spec fn name_start(path: Seq<char>) -> int
    decreases path.len(),
{
    if path.len() == 0 {
        0
    } else if path.last() == '/' {
        path.len() as int
    } else {
        name_start(path.drop_last())
    }
}

/// A path without what does not count at its end: any `/` there, and any
/// `.` that stands there as a component of its own after a `/`.
pub open spec fn without_trailing(path: Seq<char>) -> Seq<char>
    decreases path.len(),
{
    if path.len() > 0 && path.last() == '/' {
        without_trailing(path.drop_last())
    } else if path.len() >= 2 && path.last() == '.' && path[path.len() - 2] == '/' {
        without_trailing(path.drop_last())
    } else {
        path
    }
}

/// The file name of a slash-delimited path: its last component, where `/`
/// and `.` at the end do not count, so that `a/b.md/` and `a/b.md/.` name
/// `b.md`. A path whose last component is `..`, and a path that has no
/// component but `.` or `/`, has none.
pub open spec fn file_name(path: Seq<char>) -> Option<Seq<char>> {
    let kept = without_trailing(path);
    let name = kept.skip(name_start(kept));
    if name.len() == 0 || name == seq!['.', '.'] || name == seq!['.'] {
        None
    } else {
        Some(name)
    }
}

/// The position of the last `.` of `name`, if it has one.
pub open spec fn last_dot(name: Seq<char>) -> Option<int>
    decreases name.len(),
{
    if name.len() == 0 {
        None
    } else if name.last() == '.' {
        Some(name.len() - 1)
    } else {
        last_dot(name.drop_last())
    }
}

/// The extension of a file name: what follows its last `.`, unless that dot
/// is the first character of the name.
pub open spec fn extension_of_name(name: Seq<char>) -> Option<Seq<char>> {
    match last_dot(name) {
        Some(i) => if i > 0 {
            Some(name.skip(i + 1))
        } else {
            None
        },
        None => None,
    }
}

/// The extension of the file that `path` names.
pub open spec fn extension(path: Seq<char>) -> Option<Seq<char>> {
    match file_name(path) {
        Some(name) => extension_of_name(name),
        None => None,
    }
}

/// An ASCII capital as its small letter; any other character as it is.
pub open spec fn lower(c: char) -> char {
    if 'A' <= c && c <= 'Z' {
        ((c as u8 + 32) as u8) as char
    } else {
        c
    }
}

/// A sequence with every ASCII capital replaced by its small letter.
pub open spec fn lowered(s: Seq<char>) -> Seq<char> {
    s.map_values(|c: char| lower(c))
}

/// Whether the lists make `path` a text file: by its file name, or by its
/// extension in lower case.
pub open spec fn text_by(
    path: Seq<char>,
    filenames: Seq<Seq<char>>,
    extensions: Seq<Seq<char>>,
) -> bool {
    ||| file_name(path) is Some && filenames.contains(file_name(path)->0)
    ||| extension(path) is Some && extensions.contains(lowered(extension(path)->0))
}

/// Whether the list makes `path` a binary file: by its extension in lower
/// case.
pub open spec fn binary_by(path: Seq<char>, extensions: Seq<Seq<char>>) -> bool {
    extension(path) is Some && extensions.contains(lowered(extension(path)->0))
}

/// The extensions and bare file names that make a file text or binary.
/// Extensions are compared in lower case, so the lists hold them in lower
/// case.
pub struct FormatRules {
    pub text_extensions: Vec<String>,
    pub binary_extensions: Vec<String>,
    pub text_filenames: Vec<String>,
}

impl FormatRules {
    /// Whether the rules make `path` a text file.
    pub open spec fn text(&self, path: Seq<char>) -> bool {
        text_by(path, views(self.text_filenames@), views(self.text_extensions@))
    }

    /// Whether the rules make `path` a binary file.
    pub open spec fn binary(&self, path: Seq<char>) -> bool {
        binary_by(path, views(self.binary_extensions@))
    }

    /// The format of `path`, text before binary; `None` for an unlisted path.
    pub open spec fn format_of(&self, path: Seq<char>) -> Option<FileFormat> {
        if self.text(path) {
            Some(FileFormat::Text)
        } else if self.binary(path) {
            Some(FileFormat::Binary)
        } else {
            None
        }
    }

    /// The format of `path` under the default lists.
    pub open spec fn default_format_of(path: Seq<char>) -> Option<FileFormat> {
        if is_text_path(path) {
            Some(FileFormat::Text)
        } else if is_binary_path(path) {
            Some(FileFormat::Binary)
        } else {
            None
        }
    }
}

/// The default text extensions.
pub open spec fn default_text_extensions() -> Seq<Seq<char>> {
    seq!["cook"@, "conf"@, "yaml"@, "yml"@, "md"@, "menu"@, "jinja"@, "j2"@]
}

/// The default binary extensions.
pub open spec fn default_binary_extensions() -> Seq<Seq<char>> {
    seq!["jpg"@, "jpeg"@, "png"@]
}

/// The default bare file names that are text.
pub open spec fn default_text_filenames() -> Seq<Seq<char>> {
    seq![".shopping-list"@, ".shopping-checked"@, ".bookmarks"@]
}

/// An ASCII capital as its small letter; any other character as it is.
pub fn to_lower(c: char) -> (r: char)
    ensures
        r == lower(c),
{
    if c >= 'A' && c <= 'Z' {
        ((c as u8) + 32) as char
    } else {
        c
    }
}

/// Whether `path` is text under the default lists.
pub open spec fn is_text_path(path: Seq<char>) -> bool {
    text_by(path, default_text_filenames(), default_text_extensions())
}

/// Whether `path` is binary under the default lists.
pub open spec fn is_binary_path(path: Seq<char>) -> bool {
    binary_by(path, default_binary_extensions())
}

/// The path without what does not count at its end.
fn strip_trailing(path: &Vec<char>) -> (kept: Vec<char>)
    ensures
        kept@ == without_trailing(path@),
{
    let mut end: usize = path.len();
    let mut done: bool = false;
    proof {
        assert(path@.take(end as int) =~= path@);
    }
    while !done
        invariant
            end <= path@.len(),
            without_trailing(path@) == without_trailing(path@.take(end as int)),
            done ==> without_trailing(path@.take(end as int)) == path@.take(end as int),
        decreases end + (if done { 0int } else { 1int }),
    {
        let ghost cur = path@.take(end as int);
        if end > 0 && path[end - 1] == '/' {
            proof {
                assert(cur.drop_last() =~= path@.take(end - 1));
            }
            end -= 1;
        } else if end >= 2 && path[end - 1] == '.' && path[end - 2] == '/' {
            proof {
                assert(cur.drop_last() =~= path@.take(end - 1));
            }
            end -= 1;
        } else {
            done = true;
        }
    }
    sub_chars(path, 0, end)
}

/// The file name of `path`, if it has one.
fn name_of(path: &Vec<char>) -> (r: Option<Vec<char>>)
    ensures
        match r {
            Some(name) => file_name(path@) == Some(name@),
            None => file_name(path@) is None,
        },
{
    let kept = strip_trailing(path);
    let mut i: usize = kept.len();
    proof {
        assert(kept@.take(i as int) =~= kept@);
    }
    while i > 0 && kept[i - 1] != '/'
        invariant
            i <= kept@.len(),
            name_start(kept@) == name_start(kept@.take(i as int)),
        decreases i,
    {
        proof {
            assert(kept@.take(i as int).drop_last() =~= kept@.take(i - 1));
        }
        i -= 1;
    }
    proof {
        if i > 0 {
            assert(kept@.take(i as int).last() == '/');
        }
        assert(name_start(kept@) == i);
    }
    let name = sub_chars(&kept, i, kept.len());
    proof {
        assert(name@ =~= kept@.skip(i as int));
    }
    if name.len() == 0 {
        return None;
    }
    if name.len() == 1 && name[0] == '.' {
        proof {
            assert(name@ =~= seq!['.']);
        }
        return None;
    }
    if name.len() == 2 && name[0] == '.' && name[1] == '.' {
        proof {
            assert(name@ =~= seq!['.', '.']);
        }
        return None;
    }
    proof {
        if name@ == seq!['.', '.'] {
            assert(seq!['.', '.'].len() == 2);
            assert(seq!['.', '.'][0] == '.');
            assert(seq!['.', '.'][1] == '.');
        }
        if name@ == seq!['.'] {
            assert(seq!['.'].len() == 1);
            assert(seq!['.'][0] == '.');
        }
    }
    Some(name)
}

/// The extension of the file name `name`, in lower case, if it has one.
fn lowered_extension_of(name: &Vec<char>) -> (r: Option<Vec<char>>)
    ensures
        match r {
            Some(ext) => extension_of_name(name@) is Some && ext@ == lowered(
                extension_of_name(name@)->0,
            ),
            None => extension_of_name(name@) is None,
        },
{
    let mut i: usize = name.len();
    proof {
        assert(name@.take(i as int) =~= name@);
    }
    while i > 0 && name[i - 1] != '.'
        invariant
            i <= name@.len(),
            last_dot(name@) == last_dot(name@.take(i as int)),
        decreases i,
    {
        proof {
            assert(name@.take(i as int).drop_last() =~= name@.take(i - 1));
        }
        i -= 1;
    }
    proof {
        if i > 0 {
            assert(name@.take(i as int).last() == '.');
            assert(last_dot(name@) == Some(i - 1));
        } else {
            assert(last_dot(name@) is None);
        }
    }
    if i <= 1 {
        return None;
    }
    let mut ext: Vec<char> = Vec::new();
    let mut k: usize = i;
    while k < name.len()
        invariant
            i <= k <= name@.len(),
            ext@ == lowered(name@.subrange(i as int, k as int)),
        decreases name@.len() - k,
    {
        ext.push(to_lower(name[k]));
        proof {
            assert(name@.subrange(i as int, k + 1) =~= name@.subrange(i as int, k as int).push(
                name@[k as int],
            ));
            assert(ext@ =~= lowered(name@.subrange(i as int, k + 1)));
        }
        k += 1;
    }
    proof {
        assert(name@.subrange(i as int, name@.len() as int) =~= name@.skip(i as int));
    }
    Some(ext)
}

/// Whether one of the strings of `list` holds exactly the characters `item`.
fn list_holds(list: &Vec<String>, item: &Vec<char>) -> (r: bool)
    ensures
        r == views(list@).contains(item@),
{
    let mut i: usize = 0;
    while i < list.len()
        invariant
            i <= list@.len(),
            forall|j: int| 0 <= j < i ==> views(list@)[j] != item@,
        decreases list@.len() - i,
    {
        let entry = to_chars(list[i].as_str());
        if chars_eq(&entry, item) {
            proof {
                assert(views(list@)[i as int] == item@);
            }
            return true;
        }
        i += 1;
    }
    false
}

/// A vector of owned strings from three literals and more.
fn owned(items: &[&str]) -> (v: Vec<String>)
    ensures
        v@.len() == items@.len(),
        forall|i: int| 0 <= i < items@.len() ==> v@[i]@ == items@[i]@,
{
    let mut v: Vec<String> = Vec::new();
    let mut i: usize = 0;
    while i < items.len()
        invariant
            i <= items@.len(),
            v@.len() == i,
            forall|j: int| 0 <= j < i ==> v@[j]@ == items@[j]@,
        decreases items@.len() - i,
    {
        v.push(items[i].to_string());
        i += 1;
    }
    v
}

impl FormatRules {
    /// The default rules: eight text extensions, three text file names and
    /// three binary extensions.
    pub fn new() -> (rules: FormatRules)
        ensures
            views(rules.text_extensions@) == default_text_extensions(),
            views(rules.binary_extensions@) == default_binary_extensions(),
            views(rules.text_filenames@) == default_text_filenames(),
    {
        let text_extensions = owned(&["cook", "conf", "yaml", "yml", "md", "menu", "jinja", "j2"]);
        let binary_extensions = owned(&["jpg", "jpeg", "png"]);
        let text_filenames = owned(&[".shopping-list", ".shopping-checked", ".bookmarks"]);
        proof {
            assert(views(text_extensions@) =~= default_text_extensions());
            assert(views(binary_extensions@) =~= default_binary_extensions());
            assert(views(text_filenames@) =~= default_text_filenames());
        }
        FormatRules { text_extensions, binary_extensions, text_filenames }
    }

    /// Whether the rules make `path` a text file.
    pub fn is_text(&self, path: &str) -> (r: bool)
        ensures
            r == self.text(path@),
    {
        let chars = to_chars(path);
        match name_of(&chars) {
            Some(name) => {
                if list_holds(&self.text_filenames, &name) {
                    return true;
                }
                match lowered_extension_of(&name) {
                    Some(ext) => list_holds(&self.text_extensions, &ext),
                    None => false,
                }
            },
            None => false,
        }
    }

    /// Whether the rules make `path` a binary file.
    pub fn is_binary(&self, path: &str) -> (r: bool)
        ensures
            r == self.binary(path@),
    {
        let chars = to_chars(path);
        match name_of(&chars) {
            Some(name) => match lowered_extension_of(&name) {
                Some(ext) => list_holds(&self.binary_extensions, &ext),
                None => false,
            },
            None => false,
        }
    }

    /// The format of `path`: text where the rules make it text, else binary
    /// where they make it binary, else none.
    pub fn classify(&self, path: &str) -> (f: Option<FileFormat>)
        ensures
            f == self.format_of(path@),
    {
        if self.is_text(path) {
            Some(FileFormat::Text)
        } else if self.is_binary(path) {
            Some(FileFormat::Binary)
        } else {
            None
        }
    }
}

/// Whether `p` names a binary file under the default rules.
pub fn is_binary(p: &str) -> (r: bool)
    ensures
        r == is_binary_path(p@),
{
    FormatRules::new().is_binary(p)
}

/// Whether `p` names a text file under the default rules.
pub fn is_text(p: &str) -> (r: bool)
    ensures
        r == is_text_path(p@),
{
    FormatRules::new().is_text(p)
}

} // verus!
