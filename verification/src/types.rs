//! The typed records handed between the store, the export flow and callers.

use crate::paths::{split_on, split_string, PathArena, PathHandle};
use crate::text::str_eq;
use vstd::prelude::*;
use vstd::string::StringExecFns;

verus! {

/// Extra behaviour of a command group.  A group marked `HasExt` keeps the
/// file extension it is scoped to in the first segment of its path, and that
/// segment may be swapped while the group is open.
#[derive(Clone, Copy, Debug, PartialEq, Eq, Structural)]
pub enum KeyProps {
    Plain,
    HasExt,
}

impl From<&str> for KeyProps {
    /// `"HasExt"` names the extension-scoped behaviour; everything else maps
    /// to the default.
    fn from(value: &str) -> (r: Self) {
        if str_eq(value, "HasExt") {
            KeyProps::HasExt
        } else {
            KeyProps::Plain
        }
    }
}

impl vstd::std_specs::convert::FromSpecImpl<&str> for KeyProps {
    open spec fn obeys_from_spec() -> bool {
        true
    }

    open spec fn from_spec(value: &str) -> Self {
        if value@ == "HasExt"@ {
            KeyProps::HasExt
        } else {
            KeyProps::Plain
        }
    }
}

/// A named command group: a display name, the shared path of the store
/// container it lists, and its behaviour flags.
#[derive(Clone, Debug, PartialEq)]
pub struct Key {
    pub name: String,
    pub path: PathHandle,
    pub properties: KeyProps,
}

impl Key {
    /// A group with the given display name, default behaviour and a fresh
    /// empty path.
    pub fn new(name: String, arena: &mut PathArena) -> (k: Key)
        ensures
            k.name == name,
            k.properties == KeyProps::Plain,
            k.path.index == old(arena)@.len(),
            final(arena)@ == old(arena)@.push(Seq::<Seq<char>>::empty()),
            final(arena).valid(k.path),
            final(arena).path(k.path) == Seq::<Seq<char>>::empty(),
    {
        let segs: Vec<String> = Vec::new();
        proof {
            assert(segs.deep_view() =~= Seq::<Seq<char>>::empty());
        }
        let h = arena.new_slot(segs);
        Key { name, path: h, properties: KeyProps::Plain }
    }

    /// Replaces the group's path by a fresh slot holding `path` split at
    /// every `/`.
    pub fn with_path(self, path: &str, arena: &mut PathArena) -> (k: Key)
        ensures
            k.name == self.name,
            k.properties == self.properties,
            k.path.index == old(arena)@.len(),
            final(arena)@ == old(arena)@.push(split_on(path@, '/')),
            final(arena).valid(k.path),
            final(arena).path(k.path) == split_on(path@, '/'),
    {
        let segs = split_string(path, '/');
        let h = arena.new_slot(segs);
        Key { name: self.name, path: h, properties: self.properties }
    }

    /// Replaces the group's behaviour flags.
    pub fn with_props(self, props: KeyProps) -> (k: Key)
        ensures
            k == (Key { properties: props, ..self }),
    {
        Key { name: self.name, path: self.path, properties: props }
    }

    /// Hands out the group's path handle; the underlying segment sequence
    /// stays shared.
    pub fn clone_path(&self) -> (h: PathHandle)
        ensures
            h == self.path,
    {
        self.path
    }

    /// For an extension-scoped group, swaps the extension segment in place;
    /// the change is visible to every holder sharing the path.  A group
    /// without the flag is returned unchanged.
    pub fn with_extension(self, new_extension: String, arena: &mut PathArena) -> (k: Key)
        requires
            self.properties == KeyProps::HasExt ==> old(arena).valid(self.path) && old(
                arena,
            ).path(self.path).len() > 0,
        ensures
            k == self,
            self.properties == KeyProps::Plain ==> final(arena)@ == old(arena)@,
            self.properties == KeyProps::HasExt ==> final(arena)@ == old(arena)@.update(
                self.path.index as int,
                old(arena).path(self.path).update(0, new_extension@),
            ),
    {
        match self.properties {
            KeyProps::Plain => self,
            KeyProps::HasExt => {
                arena.set_segment(self.path, 0, new_extension);
                self
            },
        }
    }

    /// An independent copy of the group: same name and flags, and a fresh
    /// path slot holding the same segments.
    pub fn deep_clone(&self, arena: &mut PathArena) -> (k: Key)
        requires
            old(arena).valid(self.path),
        ensures
            k.name == self.name,
            k.properties == self.properties,
            k.path.index == old(arena)@.len(),
            final(arena)@ == old(arena)@.push(old(arena).path(self.path)),
            final(arena).valid(k.path),
            final(arena).path(k.path) == old(arena).path(self.path),
    {
        let h = arena.deep_clone_slot(self.path);
        Key { name: self.name.clone(), path: h, properties: self.properties }
    }
}

/// Relies on `uuid::Uuid::new_v4`: a freshly generated random identifier,
/// reduced to its 128-bit integer value.  Nothing is promised of the result;
/// callers treat it as an opaque identity.
#[verifier::external_body]
fn fresh_id() -> u128 {
    uuid::Uuid::new_v4().as_u128()
}

/// One command of the context menu: a read/write view of store state,
/// constructed transiently by callers and by listings.
///
/// Two entries are "the same" exactly when they carry the same identity,
/// whatever their visible fields hold; every construction draws a fresh
/// identity.
#[derive(Clone, Debug)]
pub struct ContextCommandInfo {
    /// Opaque identity, drawn freshly by [`ContextCommandInfo::new`]; equality
    /// compares only this field.
    pub id: u128,
    pub title: String,
    pub icon: String,
    pub command: String,
    pub folder: String,
    pub path: PathHandle,
}

impl ContextCommandInfo {
    /// A fresh entry with the given visible fields and a new identity.
    pub fn new(
        title: String,
        icon: String,
        command: String,
        folder: String,
        path: PathHandle,
    ) -> (r: Self)
        ensures
            r.title == title,
            r.icon == icon,
            r.command == command,
            r.folder == folder,
            r.path == path,
    {
        ContextCommandInfo { id: fresh_id(), title, icon, command, folder, path }
    }

    /// The display form used by listings: title and command line.
    pub fn display_string(&self) -> (r: String)
        ensures
            r@ == "Title: "@ + self.title@ + ", Command: "@ + self.command@,
    {
        let mut s = "Title: ".to_owned();
        s.append(self.title.as_str());
        s.append(", Command: ");
        s.append(self.command.as_str());
        s
    }
}

impl PartialEq for ContextCommandInfo {
    /// Identity-based equality: entries with equal visible fields but
    /// different identities stay distinct.
    fn eq(&self, other: &Self) -> (r: bool) {
        self.id == other.id
    }
}

impl vstd::std_specs::cmp::PartialEqSpecImpl for ContextCommandInfo {
    open spec fn obeys_eq_spec() -> bool {
        true
    }

    open spec fn eq_spec(&self, other: &Self) -> bool {
        self.id == other.id
    }
}

} // verus!
