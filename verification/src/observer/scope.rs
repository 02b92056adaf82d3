//! The scope of the desktop shell's snapshot scan: the directory holding
//! the sibling repositories and which of them are scanned, each taken from
//! an optional setting with this ecosystem's own as the fallback.

use vstd::prelude::*;
use crate::observer::discover::DiscoverInput;
use crate::text::{chars_of, split_trimmed, texts_of, trimmed_items};

verus! {

/// The six sibling repositories of this ecosystem, in scan order.
pub open spec fn default_repos_spec() -> Seq<Seq<char>> {
    seq![
        "my-lisp"@,
        "fpga-lisp"@,
        "cml"@,
        "my-idea"@,
        "my-lisp-panini"@,
        "shiva-sutras"@,
    ]
}

/// The repositories scanned when no setting names any.
pub fn default_ecosystem_repos() -> (r: Vec<String>)
    ensures
        texts_of(r@) == default_repos_spec(),
{
    let r = vec![
        String::from_str("my-lisp"),
        String::from_str("fpga-lisp"),
        String::from_str("cml"),
        String::from_str("my-idea"),
        String::from_str("my-lisp-panini"),
        String::from_str("shiva-sutras"),
    ];
    assert(texts_of(r@) =~= default_repos_spec());
    r
}

/// Which repositories a setting selects: its comma-separated entries,
/// trimmed, with empty ones dropped; the defaults when it is absent or
/// names none.
pub open spec fn repos_spec(setting: Option<Seq<char>>) -> Seq<Seq<char>> {
    match setting {
        Some(s) => if trimmed_items(s, 0).len() > 0 {
            trimmed_items(s, 0)
        } else {
            default_repos_spec()
        },
        None => default_repos_spec(),
    }
}

/// The repositories to scan, from the setting's text if there is one.
pub fn ecosystem_repos(setting: Option<&str>) -> (r: Vec<String>)
    ensures
        texts_of(r@) == repos_spec(
            match setting {
                Some(s) => Some(s@),
                None => None,
            },
        ),
{
    match setting {
        Some(raw) => {
            let listed = split_trimmed(chars_of(raw).as_slice());
            if listed.len() > 0 {
                listed
            } else {
                default_ecosystem_repos()
            }
        },
        None => default_ecosystem_repos(),
    }
}

/// The directory holding the repositories: the setting if there is one,
/// else the standard checkout location.
pub fn ecosystem_root(setting: Option<&str>) -> (r: String)
    ensures
        r@ == match setting {
            Some(s) => s@,
            None => "/home/agents/GitHub"@,
        },
{
    match setting {
        Some(s) => String::from_str(s),
        None => String::from_str("/home/agents/GitHub"),
    }
}

/// What one snapshot scan is asked to cover, given the two settings.
pub fn snapshot_input(root_setting: Option<&str>, repos_setting: Option<&str>) -> (i: DiscoverInput)
    ensures
        i.root@ == match root_setting {
            Some(s) => s@,
            None => "/home/agents/GitHub"@,
        },
        i.repositories matches Some(v) && texts_of(v@) == repos_spec(
            match repos_setting {
                Some(s) => Some(s@),
                None => None,
            },
        ),
        i.identity_base_dir is None,
{
    DiscoverInput {
        root: ecosystem_root(root_setting),
        repositories: Some(ecosystem_repos(repos_setting)),
        identity_base_dir: None,
    }
}

} // verus!
