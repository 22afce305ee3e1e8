//! The hierarchical key-value store model and the typed CRUD over it.
//!
//! A [`Node`] is one container of the store: a list of named scalar values
//! and a list of named child containers, both in insertion order with unique
//! names kept by construction.  The store root corresponds to the fixed root
//! handle of the host store; an external driver mirrors the verified
//! mutations onto the real store.

use crate::errors::Error;
use crate::paths::{PathArena, PathHandle};
use crate::text::str_eq;
use crate::types::ContextCommandInfo;
use vstd::prelude::*;

verus! {

/// One scalar value of a container, carrying its declared kind.
///
/// The encoder branches on this kind, never on content heuristics.  `Other`
/// stands for every kind the codec does not model.
#[derive(Clone, Debug, PartialEq)]
pub enum RegValue {
    /// A plain string value.
    Str(String),
    /// An expandable string (environment-variable placeholders), kept as the
    /// raw bytes of its stored representation.
    Expand(Vec<u8>),
    /// A 32-bit integer value.
    Dword(u32),
    /// Any other kind; exported as an empty quoted string.
    Other,
}

/// The mathematical shape of a [`RegValue`].
pub enum RegValueView {
    Str(Seq<char>),
    Expand(Seq<u8>),
    Dword(u32),
    Other,
}

impl View for RegValue {
    type V = RegValueView;

    open spec fn view(&self) -> RegValueView {
        match self {
            RegValue::Str(s) => RegValueView::Str(s@),
            RegValue::Expand(b) => RegValueView::Expand(b@),
            RegValue::Dword(d) => RegValueView::Dword(*d),
            RegValue::Other => RegValueView::Other,
        }
    }
}

/// One container of the store: named values and named child containers.
#[derive(Debug, PartialEq)]
pub struct Node {
    pub values: Vec<(String, RegValue)>,
    pub children: Vec<(String, Node)>,
}

/// The mathematical shape of a [`Node`]: the same tree over sequences.
#[verifier::ext_equal]
pub struct NodeView {
    pub values: Seq<(Seq<char>, RegValueView)>,
    pub children: Seq<(Seq<char>, NodeView)>,
}

/// The view of a node, taken recursively over its children.
pub open spec fn node_view(n: Node) -> NodeView
    decreases n,
{
    NodeView { values: values_view(n.values@), children: children_view(n.children@) }
}

/// The view of a value list: names and values as sequences, in order.
pub open spec fn values_view(vs: Seq<(String, RegValue)>) -> Seq<(Seq<char>, RegValueView)> {
    Seq::new(vs.len(), |i: int| (vs[i].0@, vs[i].1@))
}

/// The view of a child list: names as sequences and children as views, in
/// order.
pub open spec fn children_view(cs: Seq<(String, Node)>) -> Seq<(Seq<char>, NodeView)>
    decreases cs,
{
    if cs.len() == 0 {
        Seq::empty()
    } else {
        children_view(cs.drop_last()).push((cs.last().0@, node_view(cs.last().1)))
    }
}

/// `children_view` maps its list pointwise.
pub proof fn lemma_children_view(cs: Seq<(String, Node)>)
    ensures
        children_view(cs).len() == cs.len(),
        forall|i: int| 0 <= i < cs.len() ==> children_view(cs)[i] == (
            cs[i].0@,
            node_view(cs[i].1),
        ),
    decreases cs.len(),
{
    if cs.len() > 0 {
        lemma_children_view(cs.drop_last());
    }
}

impl View for Node {
    type V = NodeView;

    open spec fn view(&self) -> NodeView {
        node_view(*self)
    }
}

/// The position of the first entry named `name`, or `-1` when there is none.
pub open spec fn assoc_index<T>(entries: Seq<(Seq<char>, T)>, name: Seq<char>) -> int
    decreases entries.len(),
{
    if entries.len() == 0 {
        -1
    } else if entries[0].0 == name {
        0
    } else if assoc_index(entries.drop_first(), name) < 0 {
        -1
    } else {
        assoc_index(entries.drop_first(), name) + 1
    }
}

/// What `assoc_index` returns: a valid position of the first entry carrying
/// `name`, or `-1` exactly when no entry carries it.
pub proof fn lemma_assoc_index<T>(entries: Seq<(Seq<char>, T)>, name: Seq<char>)
    ensures
        assoc_index(entries, name) >= 0 ==> {
            &&& assoc_index(entries, name) < entries.len()
            &&& entries[assoc_index(entries, name)].0 == name
            &&& forall|k: int| 0 <= k < assoc_index(entries, name) ==> entries[k].0 != name
        },
        assoc_index(entries, name) < 0 ==> {
            &&& assoc_index(entries, name) == -1
            &&& forall|k: int| 0 <= k < entries.len() ==> entries[k].0 != name
        },
    decreases entries.len(),
{
    if entries.len() > 0 && entries[0].0 != name {
        let rest = entries.drop_first();
        lemma_assoc_index(rest, name);
        let r = assoc_index(rest, name);
        if r >= 0 {
            assert(entries[r + 1] == rest[r]);
            assert forall|k: int| 0 <= k < r + 1 implies entries[k].0 != name by {
                if k > 0 {
                    assert(entries[k] == rest[k - 1]);
                }
            }
        } else {
            assert forall|k: int| 0 <= k < entries.len() implies entries[k].0 != name by {
                if k > 0 {
                    assert(entries[k] == rest[k - 1]);
                }
            }
        }
    }
}

/// The value stored under `name`, if any.
pub open spec fn lookup_value(n: NodeView, name: Seq<char>) -> Option<RegValueView> {
    let i = assoc_index(n.values, name);
    if i < 0 {
        None
    } else {
        Some(n.values[i].1)
    }
}

/// The child container named `name`, if any.
pub open spec fn child_at(n: NodeView, name: Seq<char>) -> Option<NodeView> {
    let i = assoc_index(n.children, name);
    if i < 0 {
        None
    } else {
        Some(n.children[i].1)
    }
}

/// `n` with the value `name` set to `v`: overwritten in place when present,
/// appended otherwise.
pub open spec fn with_value(n: NodeView, name: Seq<char>, v: RegValueView) -> NodeView {
    let i = assoc_index(n.values, name);
    if i < 0 {
        NodeView { values: n.values.push((name, v)), children: n.children }
    } else {
        NodeView { values: n.values.update(i, (name, v)), children: n.children }
    }
}

/// `n` with the child `name` replaced by `c` in place when present, appended
/// otherwise.
pub open spec fn with_child(n: NodeView, name: Seq<char>, c: NodeView) -> NodeView {
    let i = assoc_index(n.children, name);
    if i < 0 {
        NodeView { values: n.values, children: n.children.push((name, c)) }
    } else {
        NodeView { values: n.values, children: n.children.update(i, (name, c)) }
    }
}

/// `n` with the child `name` and its whole subtree removed; unchanged when
/// there is no such child.
pub open spec fn without_child(n: NodeView, name: Seq<char>) -> NodeView {
    let i = assoc_index(n.children, name);
    if i < 0 {
        n
    } else {
        NodeView { values: n.values, children: n.children.remove(i) }
    }
}

/// Resolves `path` segment by segment from `n`; `None` as soon as a segment
/// is absent.
pub open spec fn resolve(n: NodeView, path: Seq<Seq<char>>) -> Option<NodeView>
    decreases path.len(),
{
    if path.len() == 0 {
        Some(n)
    } else {
        match child_at(n, path[0]) {
            Option::None => None,
            Option::Some(c) => resolve(c, path.drop_first()),
        }
    }
}

/// `n` with the container at `path` replaced by `m`.  Meaningful when `path`
/// resolves; unchanged past a missing segment.
pub open spec fn replace_at(n: NodeView, path: Seq<Seq<char>>, m: NodeView) -> NodeView
    decreases path.len(),
{
    if path.len() == 0 {
        m
    } else {
        match child_at(n, path[0]) {
            Option::None => n,
            Option::Some(c) => with_child(n, path[0], replace_at(c, path.drop_first(), m)),
        }
    }
}

/// A container with no values and no children.
pub open spec fn empty_node() -> NodeView {
    NodeView { values: Seq::empty(), children: Seq::empty() }
}

/// The child `name` of `n`, or an empty container when absent.
pub open spec fn child_or_empty(n: NodeView, name: Seq<char>) -> NodeView {
    match child_at(n, name) {
        Option::Some(c) => c,
        Option::None => empty_node(),
    }
}

/// The folder container after a create-or-update: the existing folder (or a
/// fresh one), its default value set to the title, its `icon` value set, and
/// — only for a non-empty command — a nested `command` container whose
/// default value is the command line.
pub open spec fn written_entry(
    parent: NodeView,
    folder: Seq<char>,
    title: Seq<char>,
    icon: Seq<char>,
    command: Seq<char>,
) -> NodeView {
    let base = child_or_empty(parent, folder);
    let titled = with_value(base, ""@, RegValueView::Str(title));
    let iconed = with_value(titled, "icon"@, RegValueView::Str(icon));
    if command.len() == 0 {
        iconed
    } else {
        let cmd_node = with_value(child_or_empty(iconed, "command"@), ""@, RegValueView::Str(command));
        with_child(iconed, "command"@, cmd_node)
    }
}

/// The parent container after a create-or-update of `folder` beneath it.
pub open spec fn parent_after_create(
    parent: NodeView,
    folder: Seq<char>,
    title: Seq<char>,
    icon: Seq<char>,
    command: Seq<char>,
) -> NodeView {
    with_child(parent, folder, written_entry(parent, folder, title, icon, command))
}

/// The whole store after a create-or-update addressed by `path`; unchanged
/// when `path` does not resolve.
pub open spec fn store_after_create(
    root: NodeView,
    path: Seq<Seq<char>>,
    folder: Seq<char>,
    title: Seq<char>,
    icon: Seq<char>,
    command: Seq<char>,
) -> NodeView {
    match resolve(root, path) {
        Option::Some(parent) => replace_at(
            root,
            path,
            parent_after_create(parent, folder, title, icon, command),
        ),
        Option::None => root,
    }
}

/// The whole store after deleting `folder` beneath the container at `path`;
/// unchanged when `path` does not resolve.
pub open spec fn store_after_delete(root: NodeView, path: Seq<Seq<char>>, folder: Seq<char>) -> NodeView {
    match resolve(root, path) {
        Option::Some(parent) => replace_at(root, path, without_child(parent, folder)),
        Option::None => root,
    }
}

/// The visible fields of a well-formed child entry: its default value (the
/// title) and `icon` value must be strings, and its `command` child must hold
/// a string default value.  `None` marks a malformed or foreign child.
pub open spec fn entry_fields(c: NodeView) -> Option<(Seq<char>, Seq<char>, Seq<char>)> {
    match lookup_value(c, ""@) {
        Option::Some(RegValueView::Str(title)) => match lookup_value(c, "icon"@) {
            Option::Some(RegValueView::Str(icon)) => match child_at(c, "command"@) {
                Option::Some(cmd_node) => match lookup_value(cmd_node, ""@) {
                    Option::Some(RegValueView::Str(command)) => Some((title, icon, command)),
                    _ => None,
                },
                Option::None => None,
            },
            _ => None,
        },
        _ => None,
    }
}

/// The listing of `children`: for every well-formed child, in enumeration
/// order, its `(title, icon, command, folder)` fields; malformed children
/// are silently skipped.
pub open spec fn listed_entries(children: Seq<(Seq<char>, NodeView)>) -> Seq<
    (Seq<char>, Seq<char>, Seq<char>, Seq<char>),
>
    decreases children.len(),
{
    if children.len() == 0 {
        Seq::empty()
    } else {
        let rest = listed_entries(children.drop_last());
        match entry_fields(children.last().1) {
            Option::Some(f) => rest.push((f.0, f.1, f.2, children.last().0)),
            Option::None => rest,
        }
    }
}

/// A caller-supplied entry is valid for store mutation when its title and
/// folder are non-empty and its path holds at least one segment, every
/// segment non-empty.
pub open spec fn valid_entry(title: Seq<char>, folder: Seq<char>, path: Seq<Seq<char>>) -> bool {
    &&& title.len() > 0
    &&& folder.len() > 0
    &&& path.len() > 0
    &&& forall|i: int| 0 <= i < path.len() ==> path[i].len() > 0
}

impl Node {
    /// A container with no values and no children.
    pub fn empty() -> (n: Node)
        ensures
            n@ == empty_node(),
    {
        let n = Node { values: Vec::new(), children: Vec::new() };
        proof {
            assert(n@ =~~= empty_node());
        }
        n
    }

    /// The position of the value named `name`, when there is one.
    fn find_value_index(&self, name: &str) -> (r: Option<usize>)
        ensures
            match r {
                Option::Some(i) => i == assoc_index(self@.values, name@) && i < self@.values.len(),
                Option::None => assoc_index(self@.values, name@) == -1,
            },
    {
        let n = self.values.len();
        let mut j: usize = 0;
        while j < n
            invariant
                j <= n,
                n == self.values@.len(),
                forall|k: int| 0 <= k < j ==> self@.values[k].0 != name@,
            decreases n - j,
        {
            if str_eq(self.values[j].0.as_str(), name) {
                proof {
                    assert(self@.values[j as int].0 == self.values@[j as int].0@);
                    lemma_assoc_index(self@.values, name@);
                    assert(assoc_index(self@.values, name@) == j);
                }
                return Some(j);
            }
            j += 1;
        }
        proof {
            lemma_assoc_index(self@.values, name@);
        }
        None
    }

    /// The position of the child named `name`, when there is one.
    fn find_child_index(&self, name: &str) -> (r: Option<usize>)
        ensures
            match r {
                Option::Some(i) => i == assoc_index(self@.children, name@) && i
                    < self@.children.len(),
                Option::None => assoc_index(self@.children, name@) == -1,
            },
    {
        proof {
            lemma_children_view(self.children@);
        }
        let n = self.children.len();
        let mut j: usize = 0;
        while j < n
            invariant
                j <= n,
                n == self.children@.len(),
                self@.children.len() == n,
                forall|k: int| 0 <= k < n ==> #[trigger] self@.children[k].0 == self.children@[
                    k
                ].0@,
                forall|k: int| 0 <= k < j ==> self@.children[k].0 != name@,
            decreases n - j,
        {
            if str_eq(self.children[j].0.as_str(), name) {
                proof {
                    assert(self@.children[j as int].0 == self.children@[j as int].0@);
                    lemma_assoc_index(self@.children, name@);
                    assert(assoc_index(self@.children, name@) == j);
                }
                return Some(j);
            }
            j += 1;
        }
        proof {
            lemma_assoc_index(self@.children, name@);
        }
        None
    }

    /// Sets the value `name` to `v`, overwriting in place or appending.
    pub fn set_value(&mut self, name: &str, v: RegValue)
        ensures
            final(self)@ == with_value(old(self)@, name@, v@),
    {
        let ghost vv = v@;
        match self.find_value_index(name) {
            Option::Some(i) => {
                self.values.set(i, (name.to_owned(), v));
            },
            Option::None => {
                self.values.push((name.to_owned(), v));
            },
        }
        proof {
            assert(self@.values =~= with_value(old(self)@, name@, vv).values);
            assert(self@ =~~= with_value(old(self)@, name@, vv));
        }
    }

    /// The string stored under `name`, when the value exists and is of
    /// string kind.
    pub fn get_string_value(&self, name: &str) -> (r: Option<String>)
        ensures
            match r {
                Option::Some(s) => lookup_value(self@, name@) == Some(RegValueView::Str(s@)),
                Option::None => !(lookup_value(self@, name@) matches Some(RegValueView::Str(_))),
            },
    {
        match self.find_value_index(name) {
            Option::Some(i) => match &self.values[i].1 {
                RegValue::Str(s) => Some(s.clone()),
                _ => None,
            },
            Option::None => None,
        }
    }

    /// The child container named `name`, when there is one.
    pub fn child_ref(&self, name: &str) -> (r: Option<&Node>)
        ensures
            match r {
                Option::Some(c) => child_at(self@, name@) == Some(c@),
                Option::None => child_at(self@, name@) is None,
            },
    {
        proof {
            lemma_children_view(self.children@);
        }
        match self.find_child_index(name) {
            Option::Some(i) => Some(&self.children[i].1),
            Option::None => None,
        }
    }
}

/// Resolves `segs` from `root`, handing back the addressed container.
pub fn resolve_path<'a>(root: &'a Node, segs: &Vec<String>) -> (r: Option<&'a Node>)
    ensures
        match r {
            Option::Some(n) => resolve(root@, segs.deep_view()) == Some(n@),
            Option::None => resolve(root@, segs.deep_view()) is None,
        },
{
    let ghost dv = segs.deep_view();
    let mut cur: &Node = root;
    let n = segs.len();
    let mut i: usize = 0;
    proof {
        assert(dv.skip(0) =~= dv);
    }
    while i < n
        invariant
            i <= n,
            n == segs@.len(),
            dv == segs.deep_view(),
            resolve(root@, dv) == resolve(cur@, dv.skip(i as int)),
        decreases n - i,
    {
        proof {
            assert(dv.skip(i as int)[0] == dv[i as int]);
            assert(dv.skip(i as int).drop_first() =~= dv.skip(i as int + 1));
        }
        match cur.child_ref(segs[i].as_str()) {
            Option::Some(c) => {
                cur = c;
            },
            Option::None => {
                return None;
            },
        }
        i += 1;
    }
    proof {
        assert(dv.skip(n as int) =~= Seq::<Seq<char>>::empty());
    }
    Some(cur)
}

/// Appending an entry with a different name does not change where `name` is
/// first found.
pub proof fn lemma_assoc_push<T>(entries: Seq<(Seq<char>, T)>, x: (Seq<char>, T), name: Seq<char>)
    requires
        x.0 != name,
    ensures
        assoc_index(entries.push(x), name) == assoc_index(entries, name),
    decreases entries.len(),
{
    if entries.len() == 0 {
        assert(entries.push(x)[0] == x);
        assert(entries.push(x).drop_first() =~= Seq::<(Seq<char>, T)>::empty());
        assert(assoc_index(Seq::<(Seq<char>, T)>::empty(), name) == -1);
    } else {
        assert(entries.push(x)[0] == entries[0]);
        assert(entries.push(x).drop_first() =~= entries.drop_first().push(x));
        lemma_assoc_push(entries.drop_first(), x, name);
    }
}

/// What `with_value` leaves behind: the value under `name` is `v`, every
/// other name reads as before, and the children are untouched.
pub proof fn lemma_lookup_with_value(n: NodeView, name: Seq<char>, v: RegValueView)
    ensures
        lookup_value(with_value(n, name, v), name) == Some(v),
        forall|other: Seq<char>| other != name ==> lookup_value(with_value(n, name, v), other)
            == lookup_value(n, other),
        with_value(n, name, v).children == n.children,
{
    let i0 = assoc_index(n.values, name);
    let m = with_value(n, name, v);
    lemma_assoc_index(n.values, name);
    lemma_assoc_index(m.values, name);
    if i0 < 0 {
        assert forall|k: int| 0 <= k < n.values.len() implies m.values[k].0 != name by {
            assert(m.values[k] == n.values[k]);
        }
        assert(m.values[n.values.len() as int].0 == name);
        assert(assoc_index(m.values, name) == n.values.len());
        assert forall|other: Seq<char>| other != name implies lookup_value(m, other)
            == lookup_value(n, other) by {
            lemma_assoc_push(n.values, (name, v), other);
            lemma_assoc_index(n.values, other);
        }
    } else {
        assert forall|k: int| 0 <= k < n.values.len() implies n.values[k].0 == m.values[k].0 by {}
        lemma_assoc_index_same_names(m.values, n.values, name);
        assert forall|other: Seq<char>| other != name implies lookup_value(m, other)
            == lookup_value(n, other) by {
            lemma_assoc_index_same_names(m.values, n.values, other);
            lemma_assoc_index(n.values, other);
            let j = assoc_index(n.values, other);
            if j >= 0 {
                assert(n.values[j].0 == other);
                assert(j != i0);
                assert(m.values[j] == n.values[j]);
            }
        }
    }
}

/// What `with_child` leaves behind: the child under `name` is `c`, every
/// other name reads as before, and the values are untouched.
pub proof fn lemma_child_at_with_child(n: NodeView, name: Seq<char>, c: NodeView)
    ensures
        child_at(with_child(n, name, c), name) == Some(c),
        forall|other: Seq<char>| other != name ==> child_at(with_child(n, name, c), other)
            == child_at(n, other),
        with_child(n, name, c).values == n.values,
{
    let i0 = assoc_index(n.children, name);
    let m = with_child(n, name, c);
    lemma_assoc_index(n.children, name);
    lemma_assoc_index(m.children, name);
    if i0 < 0 {
        assert forall|k: int| 0 <= k < n.children.len() implies m.children[k].0 != name by {
            assert(m.children[k] == n.children[k]);
        }
        assert(m.children[n.children.len() as int].0 == name);
        assert(assoc_index(m.children, name) == n.children.len());
        assert forall|other: Seq<char>| other != name implies child_at(m, other) == child_at(
            n,
            other,
        ) by {
            lemma_assoc_push(n.children, (name, c), other);
            lemma_assoc_index(n.children, other);
        }
    } else {
        assert forall|k: int| 0 <= k < n.children.len() implies n.children[k].0
            == m.children[k].0 by {}
        lemma_assoc_index_same_names(m.children, n.children, name);
        assert forall|other: Seq<char>| other != name implies child_at(m, other) == child_at(
            n,
            other,
        ) by {
            lemma_assoc_index_same_names(m.children, n.children, other);
            lemma_assoc_index(n.children, other);
            let j = assoc_index(n.children, other);
            if j >= 0 {
                assert(n.children[j].0 == other);
                assert(j != i0);
                assert(m.children[j] == n.children[j]);
            }
        }
    }
}

/// Writing back the value a name already holds changes nothing.
pub proof fn lemma_with_value_noop(n: NodeView, name: Seq<char>)
    requires
        lookup_value(n, name) is Some,
    ensures
        with_value(n, name, lookup_value(n, name)->0) == n,
{
    let i0 = assoc_index(n.values, name);
    lemma_assoc_index(n.values, name);
    assert(n.values.update(i0, (name, n.values[i0].1)) =~= n.values);
    assert(with_value(n, name, lookup_value(n, name)->0) =~~= n);
}

/// Writing back the child a name already holds changes nothing.
pub proof fn lemma_with_child_noop(n: NodeView, name: Seq<char>)
    requires
        child_at(n, name) is Some,
    ensures
        with_child(n, name, child_at(n, name)->0) == n,
{
    let i0 = assoc_index(n.children, name);
    lemma_assoc_index(n.children, name);
    assert(n.children.update(i0, (name, n.children[i0].1)) =~= n.children);
    assert(with_child(n, name, child_at(n, name)->0) =~~= n);
}

/// After replacing the subtree at `path`, that path resolves to the new
/// subtree.
pub proof fn lemma_resolve_replace(root: NodeView, path: Seq<Seq<char>>, m: NodeView)
    requires
        resolve(root, path) is Some,
    ensures
        resolve(replace_at(root, path, m), path) == Some(m),
    decreases path.len(),
{
    if path.len() > 0 {
        let c = child_at(root, path[0])->0;
        lemma_child_at_with_child(root, path[0], replace_at(c, path.drop_first(), m));
        lemma_resolve_replace(c, path.drop_first(), m);
    }
}

/// Replacing the subtree at `path` twice with the same subtree is the same
/// as replacing it once.
pub proof fn lemma_replace_at_twice(root: NodeView, path: Seq<Seq<char>>, m: NodeView)
    requires
        resolve(root, path) is Some,
    ensures
        replace_at(replace_at(root, path, m), path, m) == replace_at(root, path, m),
    decreases path.len(),
{
    if path.len() > 0 {
        let c = child_at(root, path[0])->0;
        let x = replace_at(c, path.drop_first(), m);
        let root2 = with_child(root, path[0], x);
        lemma_child_at_with_child(root, path[0], x);
        lemma_replace_at_twice(c, path.drop_first(), m);
        lemma_with_child_twice(root, path[0], x, x);
        assert(replace_at(root2, path, m) == with_child(
            root2,
            path[0],
            replace_at(x, path.drop_first(), m),
        ));
    }
}

/// `assoc_index` looks only at the names: lists with equal names agree on it.
pub proof fn lemma_assoc_index_same_names<T, U>(
    a: Seq<(Seq<char>, T)>,
    b: Seq<(Seq<char>, U)>,
    name: Seq<char>,
)
    requires
        a.len() == b.len(),
        forall|i: int| 0 <= i < a.len() ==> a[i].0 == b[i].0,
    ensures
        assoc_index(a, name) == assoc_index(b, name),
    decreases a.len(),
{
    if a.len() > 0 && a[0].0 != name {
        assert forall|i: int| 0 <= i < a.drop_first().len() implies a.drop_first()[i].0
            == b.drop_first()[i].0 by {
            assert(a.drop_first()[i] == a[i + 1]);
            assert(b.drop_first()[i] == b[i + 1]);
        }
        lemma_assoc_index_same_names(a.drop_first(), b.drop_first(), name);
    }
}

/// Setting the child `name` twice keeps only the second setting.
pub proof fn lemma_with_child_twice(n: NodeView, name: Seq<char>, a: NodeView, b: NodeView)
    ensures
        with_child(with_child(n, name, a), name, b) == with_child(n, name, b),
{
    let i0 = assoc_index(n.children, name);
    let mid = with_child(n, name, a);
    lemma_assoc_index(n.children, name);
    if i0 < 0 {
        // `mid` appends `(name, a)` at the end; its first occurrence of
        // `name` is that appended slot.
        lemma_assoc_index(mid.children, name);
        let j = assoc_index(mid.children, name);
        assert(mid.children[n.children.len() as int].0 == name);
        assert(j >= 0);
        assert forall|k: int| 0 <= k < n.children.len() implies mid.children[k].0 != name by {
            assert(mid.children[k] == n.children[k]);
        }
        assert(j == n.children.len());
        assert(with_child(mid, name, b).children =~= n.children.push((name, b)));
        assert(with_child(mid, name, b) =~~= with_child(n, name, b));
    } else {
        assert forall|i: int| 0 <= i < n.children.len() implies n.children[i].0
            == mid.children[i].0 by {}
        lemma_assoc_index_same_names(mid.children, n.children, name);
        assert(with_child(mid, name, b).children =~= n.children.update(i0, (name, b)));
        assert(with_child(mid, name, b) =~~= with_child(n, name, b));
    }
}

impl Node {
    /// The position of the child named `name`, appending a fresh empty child
    /// of that name first when there is none.
    fn find_or_add_child(&mut self, name: &str) -> (r: usize)
        ensures
            r == assoc_index(final(self)@.children, name@),
            r < final(self)@.children.len(),
            final(self)@.children[r as int].0 == name@,
            final(self)@.children[r as int].1 == child_or_empty(old(self)@, name@),
            final(self)@ == with_child(old(self)@, name@, child_or_empty(old(self)@, name@)),
    {
        match self.find_child_index(name) {
            Option::Some(j) => {
                proof {
                    lemma_assoc_index(self@.children, name@);
                    let c = self@.children[j as int].1;
                    assert(with_child(self@, name@, c).children =~= self@.children);
                    assert(self@ =~~= with_child(self@, name@, child_or_empty(self@, name@)));
                }
                j
            },
            Option::None => {
                let j = self.children.len();
                self.children.push((name.to_owned(), Node::empty()));
                proof {
                    let oldcs = old(self).children@;
                    assert(self.children@.drop_last() =~= oldcs);
                    assert(self.children@ =~= oldcs.push(self.children@.last()));
                    lemma_children_view(oldcs);
                    lemma_children_view(self.children@);
                    assert(self@.children =~= old(self)@.children.push((name@, empty_node())));
                    assert(self@ =~~= with_child(
                        old(self)@,
                        name@,
                        child_or_empty(old(self)@, name@),
                    ));
                    lemma_assoc_index(self@.children, name@);
                    lemma_assoc_index(old(self)@.children, name@);
                    assert forall|k: int| 0 <= k < j implies self@.children[k].0 != name@ by {
                        assert(self@.children[k] == old(self)@.children[k]);
                    }
                    assert(self@.children[j as int].0 == name@);
                    assert(assoc_index(self@.children, name@) == j);
                }
                j
            },
        }
    }

    /// Detaches the child at position `j`, handing back its name and subtree.
    fn take_child(&mut self, j: usize) -> (r: (String, Node))
        requires
            j < old(self)@.children.len(),
        ensures
            r.0@ == old(self)@.children[j as int].0,
            r.1@ == old(self)@.children[j as int].1,
            final(self)@.values == old(self)@.values,
            final(self)@.children == old(self)@.children.remove(j as int),
    {
        proof {
            lemma_children_view(self.children@);
        }
        let p = self.children.remove(j);
        proof {
            lemma_children_view(self.children@);
            assert(self@.children =~= old(self)@.children.remove(j as int));
        }
        p
    }

    /// Reattaches a child at position `j`.
    fn put_child(&mut self, j: usize, name: String, child: Node)
        requires
            j <= old(self)@.children.len(),
        ensures
            final(self)@.values == old(self)@.values,
            final(self)@.children == old(self)@.children.insert(j as int, (name@, child@)),
    {
        let ghost cv = child@;
        let ghost nv = name@;
        proof {
            lemma_children_view(self.children@);
        }
        self.children.insert(j, (name, child));
        proof {
            lemma_children_view(self.children@);
            assert(self@.children =~= old(self)@.children.insert(j as int, (nv, cv)));
        }
    }

    /// Writes one entry beneath this container: the folder child is created
    /// or opened, its title and icon values are set, and for a non-empty
    /// command its nested `command` container's default value is set.
    fn apply_entry(&mut self, folder: &str, title: &str, icon: &str, command: &str)
        ensures
            final(self)@ == parent_after_create(old(self)@, folder@, title@, icon@, command@),
    {
        let ghost ov = old(self)@;
        let ghost base = child_or_empty(old(self)@, folder@);
        let fi = self.find_or_add_child(folder);
        let ghost mid = self@;
        let pair = self.take_child(fi);
        let cname = pair.0;
        let mut fnode = pair.1;
        fnode.set_value("", RegValue::Str(title.to_owned()));
        fnode.set_value("icon", RegValue::Str(icon.to_owned()));
        let ghost iconed = with_value(
            with_value(base, ""@, RegValueView::Str(title@)),
            "icon"@,
            RegValueView::Str(icon@),
        );
        if !command.is_empty() {
            let ghost cbase = child_or_empty(iconed, "command"@);
            let ci = fnode.find_or_add_child("command");
            let ghost cmid = fnode@;
            let cpair = fnode.take_child(ci);
            let ccname = cpair.0;
            let mut cnode = cpair.1;
            cnode.set_value("", RegValue::Str(command.to_owned()));
            let ghost cnv = cnode@;
            fnode.put_child(ci, ccname, cnode);
            proof {
                assert(fnode@.children =~= cmid.children.update(ci as int, ("command"@, cnv)));
                assert(fnode@ =~~= with_child(cmid, "command"@, cnv));
                lemma_with_child_twice(iconed, "command"@, cbase, cnv);
                assert(fnode@ == written_entry(ov, folder@, title@, icon@, command@));
            }
        } else {
            proof {
                assert(fnode@ == written_entry(ov, folder@, title@, icon@, command@));
            }
        }
        let ghost fnv = fnode@;
        self.put_child(fi, cname, fnode);
        proof {
            assert(self@.children =~= mid.children.update(fi as int, (folder@, fnv)));
            assert(self@ =~~= with_child(mid, folder@, fnv));
            lemma_with_child_twice(ov, folder@, base, fnv);
            assert(self@ == parent_after_create(ov, folder@, title@, icon@, command@));
        }
    }

    /// Descends the remaining segments `segs[i..]` and writes the entry
    /// beneath the addressed container.  `false` (and no change) when a
    /// segment is absent.
    fn create_along(
        &mut self,
        segs: &Vec<String>,
        i: usize,
        folder: &str,
        title: &str,
        icon: &str,
        command: &str,
    ) -> (r: bool)
        requires
            i <= segs@.len(),
        ensures
            ({
                let p = segs.deep_view().skip(i as int);
                match resolve(old(self)@, p) {
                    Option::Some(parent) => r && final(self)@ == replace_at(
                        old(self)@,
                        p,
                        parent_after_create(parent, folder@, title@, icon@, command@),
                    ),
                    Option::None => !r && final(self)@ == old(self)@,
                }
            }),
        decreases segs@.len() - i,
    {
        let ghost p = segs.deep_view().skip(i as int);
        if i == segs.len() {
            proof {
                assert(p =~= Seq::<Seq<char>>::empty());
            }
            self.apply_entry(folder, title, icon, command);
            true
        } else {
            proof {
                assert(p[0] == segs.deep_view()[i as int]);
                assert(p.drop_first() =~= segs.deep_view().skip(i as int + 1));
            }
            match self.find_child_index(segs[i].as_str()) {
                Option::None => false,
                Option::Some(j) => {
                    let ghost ov = self@;
                    let pair = self.take_child(j);
                    let cname = pair.0;
                    let mut child = pair.1;
                    let ok = child.create_along(segs, i + 1, folder, title, icon, command);
                    let ghost cv = child@;
                    self.put_child(j, cname, child);
                    proof {
                        assert(segs.deep_view()[i as int] == segs@[i as int]@);
                        lemma_assoc_index(ov.children, p[0]);
                        assert(self@.children =~= ov.children.update(j as int, (p[0], cv)));
                        if ok {
                            assert(self@ =~~= with_child(ov, p[0], cv));
                        } else {
                            assert(self@.children =~= ov.children);
                            assert(self@ =~~= ov);
                        }
                    }
                    ok
                },
            }
        }
    }

    /// Descends the remaining segments `segs[i..]` and removes the folder
    /// child (with its whole subtree) beneath the addressed container.
    /// `false` (and no change) when a segment or the folder is absent.
    fn delete_along(&mut self, segs: &Vec<String>, i: usize, folder: &str) -> (r: bool)
        requires
            i <= segs@.len(),
        ensures
            ({
                let p = segs.deep_view().skip(i as int);
                match resolve(old(self)@, p) {
                    Option::Some(parent) => {
                        if child_at(parent, folder@) is Some {
                            r && final(self)@ == replace_at(
                                old(self)@,
                                p,
                                without_child(parent, folder@),
                            )
                        } else {
                            !r && final(self)@ == old(self)@
                        }
                    },
                    Option::None => !r && final(self)@ == old(self)@,
                }
            }),
        decreases segs@.len() - i,
    {
        let ghost p = segs.deep_view().skip(i as int);
        if i == segs.len() {
            proof {
                assert(p =~= Seq::<Seq<char>>::empty());
            }
            match self.find_child_index(folder) {
                Option::Some(j) => {
                    let _dropped = self.take_child(j);
                    proof {
                        assert(self@ =~~= without_child(old(self)@, folder@));
                    }
                    true
                },
                Option::None => false,
            }
        } else {
            proof {
                assert(p[0] == segs.deep_view()[i as int]);
                assert(p.drop_first() =~= segs.deep_view().skip(i as int + 1));
            }
            match self.find_child_index(segs[i].as_str()) {
                Option::None => false,
                Option::Some(j) => {
                    let ghost ov = self@;
                    let pair = self.take_child(j);
                    let cname = pair.0;
                    let mut child = pair.1;
                    let ok = child.delete_along(segs, i + 1, folder);
                    let ghost cv = child@;
                    self.put_child(j, cname, child);
                    proof {
                        assert(segs.deep_view()[i as int] == segs@[i as int]@);
                        lemma_assoc_index(ov.children, p[0]);
                        assert(self@.children =~= ov.children.update(j as int, (p[0], cv)));
                        if ok {
                            assert(self@ =~~= with_child(ov, p[0], cv));
                        } else {
                            assert(self@.children =~= ov.children);
                            assert(self@ =~~= ov);
                        }
                    }
                    ok
                },
            }
        }
    }
}

impl Node {
    /// The visible strings of this container as an entry: title (default
    /// value), icon value, and the default value of the nested `command`
    /// container.  `None` for a malformed or foreign container.
    fn entry_strings(&self) -> (r: Option<(String, String, String)>)
        ensures
            match r {
                Option::Some(t) => entry_fields(self@) == Some((t.0@, t.1@, t.2@)),
                Option::None => entry_fields(self@) is None,
            },
    {
        let title = match self.get_string_value("") {
            Option::Some(t) => t,
            Option::None => {
                return None;
            },
        };
        let icon = match self.get_string_value("icon") {
            Option::Some(t) => t,
            Option::None => {
                return None;
            },
        };
        let cmd_node = match self.child_ref("command") {
            Option::Some(c) => c,
            Option::None => {
                return None;
            },
        };
        let command = match cmd_node.get_string_value("") {
            Option::Some(c) => c,
            Option::None => {
                return None;
            },
        };
        Some((title, icon, command))
    }
}

/// Whether an entry may touch the store: its title and folder must be
/// non-empty, and its path must hold at least one segment, all segments
/// non-empty.
pub fn validate_command_info(info: &ContextCommandInfo, arena: &PathArena) -> (r: bool)
    requires
        arena.valid(info.path),
    ensures
        r == valid_entry(info.title@, info.folder@, arena.path(info.path)),
{
    if info.title.as_str().is_empty() {
        return false;
    }
    if info.folder.as_str().is_empty() {
        return false;
    }
    let segs = arena.segments(info.path);
    let n = segs.len();
    if n == 0 {
        return false;
    }
    let ghost dv = arena.path(info.path);
    let mut i: usize = 0;
    while i < n
        invariant
            i <= n,
            n == segs@.len(),
            n > 0,
            dv == segs.deep_view(),
            dv == arena.path(info.path),
            info.title@.len() > 0,
            info.folder@.len() > 0,
            forall|k: int| 0 <= k < i ==> dv[k].len() > 0,
        decreases n - i,
    {
        proof {
            assert(dv[i as int] == segs@[i as int]@);
        }
        if segs[i].as_str().is_empty() {
            proof {
                assert(dv[i as int].len() == 0);
                assert(!valid_entry(info.title@, info.folder@, dv));
            }
            return false;
        }
        i += 1;
    }
    true
}

/// Builds a shared path from literal segment names.
pub fn convert_subkey(subkey: &[&str], arena: &mut PathArena) -> (h: PathHandle)
    ensures
        final(arena)@ == old(arena)@.push(Seq::new(subkey@.len(), |i: int| subkey@[i]@)),
        h.index == old(arena)@.len(),
        final(arena).valid(h),
        final(arena).path(h) == Seq::new(subkey@.len(), |i: int| subkey@[i]@),
{
    let n = subkey.len();
    let mut segs: Vec<String> = Vec::new();
    let mut i: usize = 0;
    while i < n
        invariant
            i <= n,
            n == subkey@.len(),
            segs@.len() == i,
            forall|k: int| 0 <= k < i ==> segs@[k]@ == subkey@[k]@,
        decreases n - i,
    {
        segs.push(subkey[i].to_owned());
        i += 1;
    }
    proof {
        assert(segs.deep_view() =~= Seq::new(subkey@.len(), |k: int| subkey@[k]@));
    }
    arena.new_slot(segs)
}

/// Creates or updates the entry's folder beneath its path: validates the
/// entry, resolves the path (no ancestors are created), then writes the
/// title, the icon, and — for a non-empty command — the nested command
/// container.  Re-running the same call overwrites the same values.
pub fn add_to_context_window(
    store: &mut Node,
    arena: &PathArena,
    info: &ContextCommandInfo,
) -> (r: Result<(), Error>)
    requires
        arena.valid(info.path),
    ensures
        ({
            let p = arena.path(info.path);
            let ok_valid = valid_entry(info.title@, info.folder@, p);
            match r {
                Result::Ok(()) => ok_valid && resolve(old(store)@, p) is Some && final(store)@
                    == store_after_create(
                    old(store)@,
                    p,
                    info.folder@,
                    info.title@,
                    info.icon@,
                    info.command@,
                ),
                Result::Err(e) => final(store)@ == old(store)@ && ((e == Error::ValidationError
                    && !ok_valid) || (e == Error::NotFound && ok_valid && resolve(
                    old(store)@,
                    p,
                ) is None)),
            }
        }),
{
    if !validate_command_info(info, arena) {
        return Err(Error::ValidationError);
    }
    let segs = arena.segments(info.path);
    proof {
        assert(segs.deep_view().skip(0) =~= arena.path(info.path));
    }
    let ok = store.create_along(
        segs,
        0,
        info.folder.as_str(),
        info.title.as_str(),
        info.icon.as_str(),
        info.command.as_str(),
    );
    if ok {
        Ok(())
    } else {
        Err(Error::NotFound)
    }
}

/// Lists the entries beneath `path`: every well-formed child container, in
/// enumeration order, as a freshly constructed entry; malformed children are
/// silently skipped.  Fails only when the path itself does not resolve.
pub fn get_current_context_window(
    store: &Node,
    arena: &PathArena,
    path: PathHandle,
) -> (r: Result<Vec<ContextCommandInfo>, Error>)
    requires
        arena.valid(path),
    ensures
        ({
            let res = resolve(store@, arena.path(path));
            match r {
                Result::Ok(list) => res is Some && {
                    let l = listed_entries(res->0.children);
                    &&& list@.len() == l.len()
                    &&& forall|k: int|
                        0 <= k < l.len() ==> {
                            &&& (#[trigger] list@[k]).title@ == l[k].0
                            &&& list@[k].icon@ == l[k].1
                            &&& list@[k].command@ == l[k].2
                            &&& list@[k].folder@ == l[k].3
                            &&& list@[k].path == path
                        }
                },
                Result::Err(e) => e == Error::NotFound && res is None,
            }
        }),
{
    let segs = arena.segments(path);
    let node = match resolve_path(store, segs) {
        Option::Some(n) => n,
        Option::None => {
            return Err(Error::NotFound);
        },
    };
    let mut out: Vec<ContextCommandInfo> = Vec::new();
    let n = node.children.len();
    let mut i: usize = 0;
    proof {
        lemma_children_view(node.children@);
        assert(node@.children.take(0) =~= Seq::<(Seq<char>, NodeView)>::empty());
    }
    while i < n
        invariant
            i <= n,
            n == node.children@.len(),
            node@.children.len() == n,
            forall|k: int| 0 <= k < n ==> #[trigger] node@.children[k] == (
                node.children@[k].0@,
                node_view(node.children@[k].1),
            ),
            ({
                let l = listed_entries(node@.children.take(i as int));
                &&& out@.len() == l.len()
                &&& forall|k: int|
                    0 <= k < l.len() ==> {
                        &&& (#[trigger] out@[k]).title@ == l[k].0
                        &&& out@[k].icon@ == l[k].1
                        &&& out@[k].command@ == l[k].2
                        &&& out@[k].folder@ == l[k].3
                        &&& out@[k].path == path
                    }
            }),
        decreases n - i,
    {
        let pair = &node.children[i];
        proof {
            let t = node@.children.take(i as int + 1);
            assert(t.drop_last() =~= node@.children.take(i as int));
            assert(t.last() == node@.children[i as int]);
        }
        match pair.1.entry_strings() {
            Option::Some(fields) => {
                let entry = ContextCommandInfo::new(
                    fields.0,
                    fields.1,
                    fields.2,
                    pair.0.clone(),
                    path,
                );
                out.push(entry);
            },
            Option::None => {},
        }
        i += 1;
    }
    proof {
        assert(node@.children.take(n as int) =~= node@.children);
    }
    Ok(out)
}

/// Deletes the entry's folder (with its whole subtree, nested command
/// container included) beneath its path.  Validates first, and fails with
/// `NotFound` when the path or the folder is absent; the store is unchanged
/// on every failure.
pub fn remove_from_context_window(
    store: &mut Node,
    arena: &PathArena,
    info: &ContextCommandInfo,
) -> (r: Result<(), Error>)
    requires
        arena.valid(info.path),
    ensures
        ({
            let p = arena.path(info.path);
            let ok_valid = valid_entry(info.title@, info.folder@, p);
            let res = resolve(old(store)@, p);
            match r {
                Result::Ok(()) => ok_valid && res is Some && child_at(res->0, info.folder@) is Some
                    && final(store)@ == store_after_delete(old(store)@, p, info.folder@),
                Result::Err(e) => final(store)@ == old(store)@ && ((e == Error::ValidationError
                    && !ok_valid) || (e == Error::NotFound && ok_valid && (res is None || child_at(
                    res->0,
                    info.folder@,
                ) is None))),
            }
        }),
{
    if !validate_command_info(info, arena) {
        return Err(Error::ValidationError);
    }
    let segs = arena.segments(info.path);
    proof {
        assert(segs.deep_view().skip(0) =~= arena.path(info.path));
    }
    let ok = store.delete_along(segs, 0, info.folder.as_str());
    if ok {
        Ok(())
    } else {
        Err(Error::NotFound)
    }
}

} // verus!
