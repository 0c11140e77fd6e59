//! Paths as the registry and the remote know them: relative to the storage
//! root, with `/` between components.

use vstd::prelude::*;
use vstd::string::*;
use path_slash::PathExt;
use crate::errors::{SyncError, SyncErrorView};
use crate::text::{from_chars, split_on, to_chars};

verus! {

/// A slash path in its plain form: it holds no `\`; but for the path `/`
/// itself, no component after the first is empty, so that it holds no `//`
/// and does not end in `/`; and no component after the first is `.`. The
/// components of such a path are the same on every host.
pub open spec fn plain_slash_path(path: Seq<char>) -> bool {
    let parts = split_on(path, '/');
    &&& forall|i: int| 0 <= i < path.len() ==> path[i] != '\\'
    &&& (path == seq!['/'] || forall|k: int| 1 <= k < parts.len() ==> (#[trigger] parts[k]).len() > 0)
    &&& forall|k: int| 1 <= k < parts.len() ==> #[trigger] parts[k] != seq!['.']
}

/// `path_slash::PathExt::to_slash` on the path that `path` spells: the path
/// with `/` for every separator of the host. The one case of no result is
/// a path that is not valid Unicode, and a path spelled by a string is.
/// On a host whose separator is `/` the form is the path itself; on any
/// other it is the path's components with `/` between them, which is the
/// path itself where it is in plain form. What the form of another path is
/// depends on the host.
#[verifier::external_body]
fn path_to_slash(path: &str) -> (r: Option<String>)
    ensures
        r is Some,
        plain_slash_path(path@) ==> r->0@ == path@,
{
    std::path::Path::new(path).to_slash().map(|p| p.into_owned())
}

/// The message of the error that a path that is not valid Unicode is
/// answered with.
pub open spec fn not_unicode_message() -> Seq<char> {
    "path is not valid Unicode"@
}

/// What the search for the slash form of a path is answered with: the form
/// itself where the path has one, and `Unknown` where it has none.
pub fn slash_form(outcome: Option<String>) -> (r: Result<String, SyncError>)
    ensures
        match outcome {
            Some(form) => r is Ok && r->Ok_0@ == form@,
            None => r is Err && r->Err_0@ == SyncErrorView::Unknown(not_unicode_message()),
        },
{
    match outcome {
        Some(form) => Ok(form),
        None => Err(SyncError::Unknown("path is not valid Unicode".to_string())),
    }
}

/// The slash form of a host path, whatever the host's own separator is.
/// Every path that a string spells has one, and a path that is in plain
/// slash form already is its own slash form.
pub fn to_slash(path: &str) -> (r: Result<String, SyncError>)
    ensures
        r is Ok,
        plain_slash_path(path@) ==> r->Ok_0@ == path@,
{
    slash_form(path_to_slash(path))
}

/// `path` begins with `prefix`.
pub open spec fn starts_with(path: Seq<char>, prefix: Seq<char>) -> bool {
    prefix.len() <= path.len() && path.take(prefix.len() as int) == prefix
}

/// A slash path relative to the directory `base`: what follows `base` and
/// the `/` after it. `None` where `path` does not lie under `base`.
pub open spec fn relative_to(path: Seq<char>, base: Seq<char>) -> Option<Seq<char>> {
    if !starts_with(path, base) {
        None
    } else {
        let rest = path.skip(base.len() as int);
        if rest.len() == 0 || base.len() == 0 || base.last() == '/' {
            Some(rest)
        } else if rest[0] == '/' {
            Some(rest.skip(1))
        } else {
            None
        }
    }
}

/// The part of the slash path `path` below the directory `base`, where it
/// lies under it.
pub fn strip_base(path: &str, base: &str) -> (r: Option<String>)
    ensures
        match r {
            Some(rel) => relative_to(path@, base@) == Some(rel@),
            None => relative_to(path@, base@) is None,
        },
{
    let p = to_chars(path);
    let b = to_chars(base);
    if b.len() > p.len() {
        return None;
    }
    let mut i: usize = 0;
    while i < b.len()
        invariant
            i <= b@.len() <= p@.len(),
            p@ == path@,
            b@ == base@,
            p@.take(i as int) == b@.take(i as int),
        decreases b@.len() - i,
    {
        if p[i] != b[i] {
            proof {
                assert(p@.take(b@.len() as int)[i as int] != b@[i as int]);
            }
            return None;
        }
        proof {
            assert(p@.take(i + 1) =~= p@.take(i as int).push(p@[i as int]));
            assert(b@.take(i + 1) =~= b@.take(i as int).push(b@[i as int]));
        }
        i += 1;
    }
    proof {
        assert(b@.take(b@.len() as int) =~= b@);
    }
    let n: usize = b.len();
    if n == p.len() || n == 0 || b[n - 1] == '/' {
        let rel = from_chars(&p, n, p.len());
        proof {
            assert(rel@ =~= p@.skip(n as int));
        }
        Some(rel)
    } else if p[n] == '/' {
        let rel = from_chars(&p, n + 1, p.len());
        proof {
            assert(rel@ =~= p@.skip(n as int).skip(1));
        }
        Some(rel)
    } else {
        None
    }
}

/// Where `path` lies under the directory `base`: `path` itself where it
/// starts at the root, else `base`, a `/` unless `base` is empty or ends in
/// one, and `path`.
pub open spec fn joined_path(base: Seq<char>, path: Seq<char>) -> Seq<char> {
    if path.len() > 0 && path[0] == '/' {
        path
    } else if base.len() == 0 || base.last() == '/' {
        base + path
    } else {
        base + seq!['/'] + path
    }
}

/// The path `name` under the directory `base`: `name` itself where it
/// starts at the root.
pub fn join_path(base: &str, name: &str) -> (p: String)
    ensures
        p@ == joined_path(base@, name@),
{
    let n = to_chars(name);
    if n.len() > 0 && n[0] == '/' {
        return name.to_string();
    }
    let b = to_chars(base);
    let mut p = base.to_string();
    if b.len() > 0 && b[b.len() - 1] != '/' {
        p.append("/");
        proof {
            reveal_strlit("/");
            assert("/"@ =~= seq!['/']);
        }
    }
    p.append(name);
    p
}

} // verus!
