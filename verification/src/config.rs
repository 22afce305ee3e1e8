//! Building the command groups from configuration entries.
//!
//! The configuration names each group with its store path (the `RegKeys`
//! section) and may flag groups by name (the `RegProps` section).  Reading
//! the file is the surrounding application's job; this module turns the two
//! plain entry lists into [`Key`] values, applying to each group the first
//! flag entry carrying its name.

use crate::paths::{split_on, PathArena};
use crate::store::{assoc_index, lemma_assoc_index};
use crate::text::str_eq;
use crate::types::{Key, KeyProps};
use vstd::prelude::*;

verus! {

/// Name/value pairs as sequences, in order.
pub open spec fn entry_views(entries: Seq<(String, String)>) -> Seq<(Seq<char>, Seq<char>)> {
    Seq::new(entries.len(), |i: int| (entries[i].0@, entries[i].1@))
}

/// The value of the first entry named `name`, if any.
pub open spec fn first_prop(props: Seq<(Seq<char>, Seq<char>)>, name: Seq<char>) -> Option<
    Seq<char>,
> {
    let i = assoc_index(props, name);
    if i < 0 {
        None
    } else {
        Some(props[i].1)
    }
}

/// The behaviour flags named by a flag value: `HasExt` marks an
/// extension-scoped group, anything else (or no flag entry) is plain.
pub open spec fn props_of(p: Option<Seq<char>>) -> KeyProps {
    match p {
        Option::Some(v) => if v == "HasExt"@ {
            KeyProps::HasExt
        } else {
            KeyProps::Plain
        },
        Option::None => KeyProps::Plain,
    }
}

/// The position of the first flag entry named `name`, when there is one.
fn find_prop(props: &Vec<(String, String)>, name: &str) -> (r: Option<usize>)
    ensures
        match r {
            Option::Some(j) => j == assoc_index(entry_views(props@), name@) && j < props@.len(),
            Option::None => assoc_index(entry_views(props@), name@) == -1,
        },
{
    let ghost pv = entry_views(props@);
    let n = props.len();
    let mut j: usize = 0;
    while j < n
        invariant
            j <= n,
            n == props@.len(),
            pv == entry_views(props@),
            forall|k: int| 0 <= k < j ==> pv[k].0 != name@,
        decreases n - j,
    {
        if str_eq(props[j].0.as_str(), name) {
            proof {
                assert(pv[j as int].0 == props@[j as int].0@);
                lemma_assoc_index(pv, name@);
                assert(assoc_index(pv, name@) == j);
            }
            return Some(j);
        }
        j += 1;
    }
    proof {
        lemma_assoc_index(pv, name@);
    }
    None
}

/// The command groups named by the configuration: one group per name/path
/// entry, its path split at `/` into a fresh arena slot, and its behaviour
/// taken from the first flag entry carrying its name.
pub fn keys_from_config(
    key_entries: &Vec<(String, String)>,
    prop_entries: &Vec<(String, String)>,
    arena: &mut PathArena,
) -> (r: Vec<Key>)
    ensures
        r@.len() == key_entries@.len(),
        final(arena)@.len() == old(arena)@.len() + 2 * key_entries@.len(),
        forall|j: int| 0 <= j < old(arena)@.len() ==> final(arena)@[j] == old(arena)@[j],
        forall|i: int|
            0 <= i < key_entries@.len() ==> {
                &&& (#[trigger] r@[i]).name@ == key_entries@[i].0@
                &&& r@[i].properties == props_of(
                    first_prop(entry_views(prop_entries@), key_entries@[i].0@),
                )
                &&& r@[i].path.index == old(arena)@.len() + 2 * i + 1
                &&& final(arena).path(r@[i].path) == split_on(key_entries@[i].1@, '/')
            },
{
    let ghost base = arena@.len();
    let n = key_entries.len();
    let mut out: Vec<Key> = Vec::new();
    let mut i: usize = 0;
    while i < n
        invariant
            i <= n,
            n == key_entries@.len(),
            out@.len() == i,
            arena@.len() == base + 2 * i,
            forall|j: int| 0 <= j < base ==> arena@[j] == old(arena)@[j],
            base == old(arena)@.len(),
            forall|k: int|
                0 <= k < i ==> {
                    &&& (#[trigger] out@[k]).name@ == key_entries@[k].0@
                    &&& out@[k].properties == props_of(
                        first_prop(entry_views(prop_entries@), key_entries@[k].0@),
                    )
                    &&& out@[k].path.index == base + 2 * k + 1
                    &&& arena.path(out@[k].path) == split_on(key_entries@[k].1@, '/')
                },
        decreases n - i,
    {
        let pair = &key_entries[i];
        let key = Key::new(pair.0.clone(), arena);
        let key = key.with_path(pair.1.as_str(), arena);
        let key = match find_prop(prop_entries, pair.0.as_str()) {
            Option::Some(j) => {
                proof {
                    lemma_assoc_index(entry_views(prop_entries@), key_entries@[i as int].0@);
                    assert(entry_views(prop_entries@)[j as int].1 == prop_entries@[j as int].1@);
                }
                key.with_props(KeyProps::from(prop_entries[j].1.as_str()))
            },
            Option::None => key,
        };
        out.push(key);
        i += 1;
    }
    out
}

} // verus!
