//! Which file-system events concern the watched config file. Paths are
//! given by their components (`Path::components`), as text.
use vstd::prelude::*;

use crate::compositor::str_views;
use crate::text::chars_eq;
use crate::text::chars_of;

verus! {

broadcast use vstd::string::group_string_axioms;

/// The kind of a file-system event (notify's `EventKind`).
#[derive(Debug, Clone, Copy, PartialEq, Eq, Structural)]
pub enum WatchEventKind {
    Any,
    Access,
    Create,
    Modify,
    Remove,
    Other,
}

/// A path named by an event: its components and its file name
/// (`Path::file_name`), as text.
#[derive(Debug, Clone)]
pub struct EventPath {
    pub components: Vec<String>,
    pub file_name: Option<String>,
}

/// `s` ends with `t`, component by component (`Path::ends_with`).
pub open spec fn ends_with_parts(s: Seq<Seq<char>>, t: Seq<Seq<char>>) -> bool {
    t.len() <= s.len() && s.skip(s.len() - t.len()) == t
}

/// An event path is the config file's: the same path, the same file name,
/// or a path ending with the config file's name (every path ends with the
/// empty one, when the config path has no file name).
pub open spec fn names_config(p: EventPath, path: Seq<Seq<char>>, file_name: Option<Seq<char>>) -> bool {
    let tail = match file_name {
        Some(n) => seq![n],
        None => Seq::empty(),
    };
    ||| str_views(p.components@) == path
    ||| (file_name matches Some(n) && p.file_name matches Some(m) && m@ == n)
    ||| ends_with_parts(str_views(p.components@), tail)
}

/// An event concerns the config file when it may change it (not a mere
/// access, nor an unknown kind) and one of its paths names the file.
pub open spec fn concerns_config(
    kind: WatchEventKind,
    paths: Seq<EventPath>,
    path: Seq<Seq<char>>,
    file_name: Option<Seq<char>>,
) -> bool {
    kind != WatchEventKind::Access && kind != WatchEventKind::Other && exists|i: int|
        0 <= i < paths.len() && names_config(#[trigger] paths[i], path, file_name)
}

fn parts_eq(a: &Vec<String>, b: &Vec<String>) -> (r: bool)
    ensures
        r == (str_views(a@) == str_views(b@)),
{
    if a.len() != b.len() {
        assert(str_views(a@).len() != str_views(b@).len());
        return false;
    }
    let mut i: usize = 0;
    while i < a.len()
        invariant
            i <= a@.len(),
            a@.len() == b@.len(),
            forall|k: int| 0 <= k < i ==> (#[trigger] a@[k])@ == b@[k]@,
        decreases a@.len() - i,
    {
        let x = chars_of(a[i].as_str());
        let y = chars_of(b[i].as_str());
        if !chars_eq(&x, &y) {
            assert(str_views(a@)[i as int] != str_views(b@)[i as int]);
            return false;
        }
        i += 1;
    }
    assert(str_views(a@) =~= str_views(b@));
    true
}

fn names_config_exec(p: &EventPath, path: &Vec<String>, file_name: &Option<String>) -> (r: bool)
    ensures
        r == names_config(*p, str_views(path@), match file_name {
            Some(n) => Some(n@),
            None => None,
        }),
{
    let ghost fv = match file_name {
        Some(n) => Some(n@),
        None => None,
    };
    let ghost pv = str_views(p.components@);
    if parts_eq(&p.components, path) {
        return true;
    }
    match (file_name, &p.file_name) {
        (Some(n), Some(m)) => {
            if chars_eq(&chars_of(m.as_str()), &chars_of(n.as_str())) {
                return true;
            }
        },
        _ => {},
    }
    let len = p.components.len();
    match file_name {
        Some(n) => {
            if len == 0 {
                return false;
            }
            let last = chars_of(p.components[len - 1].as_str());
            let r = chars_eq(&last, &chars_of(n.as_str()));
            assert(pv.skip(pv.len() - 1).len() == 1);
            assert(pv.skip(pv.len() - 1)[0] == pv[pv.len() - 1]);
            if r {
                assert(pv.skip(pv.len() - 1) =~= seq![n@]);
            } else {
                assert(pv.skip(pv.len() - 1)[0] != seq![n@][0]);
            }
            r
        },
        None => {
            assert(pv.skip(pv.len() as int) =~= Seq::<Seq<char>>::empty());
            true
        },
    }
}

/// Whether an event of `kind` on `paths` concerns the config file at
/// `path` (components) with file name `file_name`.
pub fn is_relevant(
    kind: WatchEventKind,
    paths: &Vec<EventPath>,
    path: &Vec<String>,
    file_name: &Option<String>,
) -> (r: bool)
    ensures
        r == concerns_config(kind, paths@, str_views(path@), match file_name {
            Some(n) => Some(n@),
            None => None,
        }),
{
    let ghost fv = match file_name {
        Some(n) => Some(n@),
        None => None,
    };
    match kind {
        WatchEventKind::Access | WatchEventKind::Other => {
            return false;
        },
        _ => {},
    }
    let mut i: usize = 0;
    while i < paths.len()
        invariant
            i <= paths@.len(),
            kind != WatchEventKind::Access && kind != WatchEventKind::Other,
            fv == match file_name {
                Some(n) => Some(n@),
                None => None,
            },
            forall|k: int| 0 <= k < i ==> !names_config(#[trigger] paths@[k], str_views(path@), fv),
        decreases paths@.len() - i,
    {
        if names_config_exec(&paths[i], path, file_name) {
            assert(names_config(paths@[i as int], str_views(path@), fv));
            return true;
        }
        i += 1;
    }
    false
}

} // verus!
