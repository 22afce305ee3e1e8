//! The cross-operation guarantees of the store: what a listing shows after
//! a create, that re-running a create changes nothing more, what a delete
//! takes away, and that a malformed child never reaches a listing.

use crate::store::{
    child_at, child_or_empty, entry_fields, lemma_assoc_index, lemma_child_at_with_child,
    lemma_lookup_with_value, lemma_resolve_replace, lemma_replace_at_twice, lemma_with_child_noop,
    lemma_with_child_twice, lemma_with_value_noop, listed_entries, lookup_value,
    parent_after_create, resolve, store_after_create, store_after_delete, with_child, with_value,
    written_entry, NodeView, RegValueView,
};
use vstd::prelude::*;

verus! {

/// The names written by a create are three distinct value names and the
/// `command` child name; the proofs below need them told apart.
proof fn reveal_entry_names()
    ensures
        ""@.len() == 0,
        "icon"@.len() == 4,
        "command"@.len() == 7,
        ""@ != "icon"@,
        ""@ != "command"@,
{
    reveal_strlit("");
    reveal_strlit("icon");
    reveal_strlit("command");
}

/// The folder container written by a create shows exactly the written
/// title, icon and command to a listing.
proof fn lemma_written_entry_fields(
    parent: NodeView,
    folder: Seq<char>,
    title: Seq<char>,
    icon: Seq<char>,
    command: Seq<char>,
)
    requires
        command.len() > 0,
    ensures
        entry_fields(written_entry(parent, folder, title, icon, command)) == Some(
            (title, icon, command),
        ),
{
    reveal_entry_names();
    let base = child_or_empty(parent, folder);
    let titled = with_value(base, ""@, RegValueView::Str(title));
    let iconed = with_value(titled, "icon"@, RegValueView::Str(icon));
    let cmd_node = with_value(child_or_empty(iconed, "command"@), ""@, RegValueView::Str(command));
    let w = with_child(iconed, "command"@, cmd_node);
    lemma_lookup_with_value(base, ""@, RegValueView::Str(title));
    lemma_lookup_with_value(titled, "icon"@, RegValueView::Str(icon));
    lemma_child_at_with_child(iconed, "command"@, cmd_node);
    lemma_lookup_with_value(
        child_or_empty(iconed, "command"@),
        ""@,
        RegValueView::Str(command),
    );
    assert(lookup_value(w, ""@) == Some(RegValueView::Str(title)));
    assert(lookup_value(w, "icon"@) == Some(RegValueView::Str(icon)));
    assert(lookup_value(cmd_node, ""@) == Some(RegValueView::Str(command)));
}

/// A child whose fields a listing can read appears in the listing, with its
/// container name as the folder.
proof fn lemma_listed_contains(children: Seq<(Seq<char>, NodeView)>, i: int)
    requires
        0 <= i < children.len(),
        entry_fields(children[i].1) is Some,
    ensures
        ({
            let f = entry_fields(children[i].1)->0;
            listed_entries(children).contains((f.0, f.1, f.2, children[i].0))
        }),
    decreases children.len(),
{
    let f = entry_fields(children[i].1)->0;
    let t = (f.0, f.1, f.2, children[i].0);
    if i == children.len() - 1 {
        let rest = listed_entries(children.drop_last());
        assert(listed_entries(children) == rest.push(t));
        assert(rest.push(t)[rest.len() as int] == t);
    } else {
        assert(children.drop_last()[i] == children[i]);
        lemma_listed_contains(children.drop_last(), i);
        let rest = listed_entries(children.drop_last());
        let k = choose|k: int| 0 <= k < rest.len() && rest[k] == t;
        match entry_fields(children.last().1) {
            Option::Some(g) => {
                assert(listed_entries(children)[k] == t);
            },
            Option::None => {
                assert(listed_entries(children)[k] == t);
            },
        }
    }
}

/// No listing row carries a folder name that no child carries.
proof fn lemma_listed_no_name(children: Seq<(Seq<char>, NodeView)>, name: Seq<char>)
    requires
        forall|j: int| 0 <= j < children.len() ==> (#[trigger] children[j].0) == name ==>
            entry_fields(children[j].1) is None,
    ensures
        forall|k: int| 0 <= k < listed_entries(children).len() ==> (#[trigger] listed_entries(
            children,
        )[k]).3 != name,
    decreases children.len(),
{
    if children.len() > 0 {
        assert forall|j: int|
            0 <= j < children.drop_last().len() && (#[trigger] children.drop_last()[j].0)
                == name implies entry_fields(children.drop_last()[j].1) is None by {
            assert(children.drop_last()[j] == children[j]);
        }
        lemma_listed_no_name(children.drop_last(), name);
        let rest = listed_entries(children.drop_last());
        match entry_fields(children.last().1) {
            Option::Some(f) => {
                assert(children[children.len() - 1].0 == children.last().0);
                assert(children.last().0 != name);
                assert forall|k: int| 0 <= k < listed_entries(children).len() implies (
                #[trigger] listed_entries(children)[k]).3 != name by {
                    if k < rest.len() {
                        assert(listed_entries(children)[k] == rest[k]);
                    } else {
                        assert(listed_entries(children)[k] == (
                            f.0,
                            f.1,
                            f.2,
                            children.last().0,
                        ));
                    }
                }
            },
            Option::None => {},
        }
    }
}

/// After a successful create of an entry with a non-empty command, listing
/// the same path shows a row with exactly the written title, icon, command
/// and folder.
///
/// An entry whose command is empty is written without a nested command
/// container, and the listing deliberately skips such folder-only nodes; the
/// claim therefore holds for entries that carry a command.
pub proof fn lemma_create_then_list(
    root: NodeView,
    path: Seq<Seq<char>>,
    folder: Seq<char>,
    title: Seq<char>,
    icon: Seq<char>,
    command: Seq<char>,
)
    requires
        resolve(root, path) is Some,
        command.len() > 0,
    ensures
        ({
            let root2 = store_after_create(root, path, folder, title, icon, command);
            &&& resolve(root2, path) is Some
            &&& listed_entries(resolve(root2, path)->0.children).contains(
                (title, icon, command, folder),
            )
        }),
{
    let parent = resolve(root, path)->0;
    let w = written_entry(parent, folder, title, icon, command);
    let m = parent_after_create(parent, folder, title, icon, command);
    lemma_resolve_replace(root, path, m);
    lemma_written_entry_fields(parent, folder, title, icon, command);
    lemma_assoc_index(parent.children, folder);
    let i0 = crate::store::assoc_index(parent.children, folder);
    if i0 < 0 {
        let i = m.children.len() - 1;
        assert(m.children[i] == (folder, w));
        lemma_listed_contains(m.children, i);
    } else {
        assert(m.children[i0] == (folder, w));
        lemma_listed_contains(m.children, i0);
    }
}

/// Creating the same entry twice leaves the same store as creating it once.
pub proof fn lemma_create_idempotent(
    root: NodeView,
    path: Seq<Seq<char>>,
    folder: Seq<char>,
    title: Seq<char>,
    icon: Seq<char>,
    command: Seq<char>,
)
    requires
        resolve(root, path) is Some,
    ensures
        store_after_create(
            store_after_create(root, path, folder, title, icon, command),
            path,
            folder,
            title,
            icon,
            command,
        ) == store_after_create(root, path, folder, title, icon, command),
{
    reveal_entry_names();
    let parent = resolve(root, path)->0;
    let base = child_or_empty(parent, folder);
    let titled = with_value(base, ""@, RegValueView::Str(title));
    let iconed = with_value(titled, "icon"@, RegValueView::Str(icon));
    let w = written_entry(parent, folder, title, icon, command);
    let m = parent_after_create(parent, folder, title, icon, command);
    let root2 = store_after_create(root, path, folder, title, icon, command);
    lemma_resolve_replace(root, path, m);

    // The second write rebuilds the same folder container.
    lemma_child_at_with_child(parent, folder, w);
    assert(child_or_empty(m, folder) == w);
    lemma_lookup_with_value(base, ""@, RegValueView::Str(title));
    lemma_lookup_with_value(titled, "icon"@, RegValueView::Str(icon));
    if command.len() == 0 {
        // `w` is `iconed`; resetting its title and icon is a no-op.
        lemma_with_value_noop(w, ""@);
        assert(with_value(w, ""@, RegValueView::Str(title)) == w);
        lemma_with_value_noop(w, "icon"@);
        assert(written_entry(m, folder, title, icon, command) == w);
    } else {
        let cmd_node = with_value(
            child_or_empty(iconed, "command"@),
            ""@,
            RegValueView::Str(command),
        );
        lemma_child_at_with_child(iconed, "command"@, cmd_node);
        lemma_lookup_with_value(
            child_or_empty(iconed, "command"@),
            ""@,
            RegValueView::Str(command),
        );
        // Titles and icons read through the command child attachment.
        assert(lookup_value(w, ""@) == Some(RegValueView::Str(title)));
        assert(lookup_value(w, "icon"@) == Some(RegValueView::Str(icon)));
        lemma_with_value_noop(w, ""@);
        let w1 = with_value(w, ""@, RegValueView::Str(title));
        assert(w1 == w);
        lemma_with_value_noop(w, "icon"@);
        assert(with_value(w1, "icon"@, RegValueView::Str(icon)) == w);
        // The command child is rebuilt identically and reattached.
        assert(child_or_empty(w, "command"@) == cmd_node);
        lemma_with_value_noop(cmd_node, ""@);
        assert(with_value(cmd_node, ""@, RegValueView::Str(command)) == cmd_node);
        lemma_with_child_noop(w, "command"@);
        assert(with_child(w, "command"@, cmd_node) == w);
        assert(written_entry(m, folder, title, icon, command) == w);
    }
    lemma_with_child_twice(parent, folder, w, w);
    assert(parent_after_create(m, folder, title, icon, command) == m);
    lemma_replace_at_twice(root, path, m);
}

/// After creating an entry and deleting it again, listing the same path
/// shows no row for its folder — provided the parent container did not
/// already carry two children under one name, which the store itself never
/// produces.
pub proof fn lemma_create_then_delete(
    root: NodeView,
    path: Seq<Seq<char>>,
    folder: Seq<char>,
    title: Seq<char>,
    icon: Seq<char>,
    command: Seq<char>,
)
    requires
        resolve(root, path) is Some,
        ({
            let parent = resolve(root, path)->0;
            forall|j: int, k: int|
                0 <= j < k < parent.children.len() ==> (#[trigger] parent.children[j]).0 != (
                #[trigger] parent.children[k]).0
        }),
    ensures
        ({
            let root2 = store_after_create(root, path, folder, title, icon, command);
            let root3 = store_after_delete(root2, path, folder);
            &&& resolve(root3, path) is Some
            &&& forall|k: int|
                0 <= k < listed_entries(resolve(root3, path)->0.children).len() ==> (
                #[trigger] listed_entries(resolve(root3, path)->0.children)[k]).3 != folder
        }),
{
    let parent = resolve(root, path)->0;
    let w = written_entry(parent, folder, title, icon, command);
    let m = parent_after_create(parent, folder, title, icon, command);
    let root2 = store_after_create(root, path, folder, title, icon, command);
    lemma_resolve_replace(root, path, m);
    let after = crate::store::without_child(m, folder);
    let root3 = store_after_delete(root2, path, folder);
    lemma_resolve_replace(root2, path, after);
    assert(resolve(root3, path) == Some(after));

    lemma_assoc_index(parent.children, folder);
    let i0 = crate::store::assoc_index(parent.children, folder);
    lemma_assoc_index(m.children, folder);
    let i1 = crate::store::assoc_index(m.children, folder);
    if i0 < 0 {
        // The folder was appended; removing it restores the old children,
        // none of which carry the name.
        assert(m.children[parent.children.len() as int].0 == folder);
        assert forall|k: int| 0 <= k < parent.children.len() implies m.children[k].0 != folder by {
            assert(m.children[k] == parent.children[k]);
        }
        assert(i1 == parent.children.len());
        assert(after.children =~= parent.children);
    } else {
        // The folder replaced the one existing child of that name; removal
        // leaves the remaining children, whose names all differ from it.
        assert forall|k: int| 0 <= k < parent.children.len() implies m.children[k].0
            == parent.children[k].0 by {}
        crate::store::lemma_assoc_index_same_names(m.children, parent.children, folder);
        assert(i1 == i0);
        assert(after.children =~= parent.children.remove(i0));
    }
    assert forall|j: int| 0 <= j < after.children.len() implies (#[trigger] after.children[j]).0
        != folder by {
        if i0 < 0 {
            lemma_assoc_index(parent.children, folder);
        } else {
            if j < i0 {
                assert(after.children[j] == parent.children[j]);
                assert(parent.children[j].0 != parent.children[i0].0);
            } else {
                assert(after.children[j] == parent.children[j + 1]);
                assert(parent.children[i0].0 != parent.children[j + 1].0);
            }
            assert(parent.children[i0].0 == folder);
        }
    }
    lemma_listed_no_name(after.children, folder);
}

/// A child container missing one of its listing fields (its icon value,
/// say) is excluded from the listing, while the listing itself still
/// succeeds — the listing operation's own contract already owes success
/// whenever the path resolves.  Holds under unique child names, which the
/// store itself never violates.
pub proof fn lemma_listing_skips_malformed(n: NodeView, name: Seq<char>)
    requires
        child_at(n, name) is Some,
        entry_fields(child_at(n, name)->0) is None,
        forall|j: int, k: int|
            0 <= j < k < n.children.len() ==> (#[trigger] n.children[j]).0 != (
            #[trigger] n.children[k]).0,
    ensures
        forall|k: int|
            0 <= k < listed_entries(n.children).len() ==> (#[trigger] listed_entries(
                n.children,
            )[k]).3 != name,
{
    lemma_assoc_index(n.children, name);
    let i0 = crate::store::assoc_index(n.children, name);
    assert forall|j: int|
        0 <= j < n.children.len() && (#[trigger] n.children[j].0) == name implies entry_fields(
        n.children[j].1,
    ) is None by {
        if j < i0 {
            assert(n.children[j].0 != name);
        } else if j > i0 {
            assert(n.children[i0].0 != n.children[j].0);
        }
    }
    lemma_listed_no_name(n.children, name);
}

} // verus!
