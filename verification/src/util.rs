//! Paths as the user sees them: the home directory shortened to `~`, and
//! `~` expanded back.

use vstd::prelude::*;
use crate::history::{joined_path, join_path, opt_str};
use crate::text::{chars_of, string_of, occurs_at, starts_with, sub_vec, concat_vec};

verus! {

/// `path` with a leading home directory written as `~`.
pub open spec fn shortened(path: Seq<char>, home: Option<Seq<char>>) -> Seq<char> {
    match home {
        Some(h) => if occurs_at(path, h, 0) {
            seq!['~'] + path.subrange(h.len() as int, path.len() as int)
        } else {
            path
        },
        None => path,
    }
}

/// The path as shown in the picker: a path under the home directory `home`
/// (where it is known) starts with `~` in place of it.
pub fn short_path(path: &str, home: Option<&str>) -> (r: String)
    ensures
        r@ == shortened(path@, opt_str(home)),
{
    let p = chars_of(path);
    match home {
        Some(h) => {
            let hv = chars_of(h);
            if starts_with(&p, &hv) {
                let rest = sub_vec(&p, hv.len(), p.len());
                let r = concat_vec(&vec!['~'], &rest);
                assert(r@ =~= seq!['~'] + path@.subrange(h@.len() as int, path@.len() as int));
                string_of(r.as_slice())
            } else {
                string_of(p.as_slice())
            }
        },
        None => string_of(p.as_slice()),
    }
}

/// `path` with a leading `~` expanded against `home`: `~/rest` and `~rest`
/// both become `home` joined with `rest`. `None` when the path starts with
/// `~` and the home directory is unknown.
pub open spec fn expanded(path: Seq<char>, home: Option<Seq<char>>) -> Option<Seq<char>> {
    if path.len() > 0 && path[0] == '~' {
        match home {
            Some(h) => Some(
                joined_path(
                    h,
                    if occurs_at(path, "~/"@, 0) {
                        path.subrange(2, path.len() as int)
                    } else {
                        path.subrange(1, path.len() as int)
                    },
                ),
            ),
            None => None,
        }
    } else {
        Some(path)
    }
}

/// Expand a leading `~` of a path the user gave (before it is made
/// canonical). `None` when the home directory is needed and unknown.
pub fn expand_home(path: &str, home: Option<&str>) -> (r: Option<String>)
    ensures
        match r {
            Some(s) => expanded(path@, opt_str(home)) == Some(s@),
            None => expanded(path@, opt_str(home)) is None,
        },
{
    let p = chars_of(path);
    if p.len() > 0 && p[0] == '~' {
        match home {
            Some(h) => {
                proof {
                    reveal_strlit("~/");
                }
                let tilde = chars_of("~/");
                let start: usize = if starts_with(&p, &tilde) {
                    2
                } else {
                    1
                };
                let rest = string_of(sub_vec(&p, start, p.len()).as_slice());
                Some(join_path(h, rest.as_str()))
            },
            None => None,
        }
    } else {
        Some(string_of(p.as_slice()))
    }
}

} // verus!
