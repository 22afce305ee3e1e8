//! The export codec and serializer.
//!
//! A snapshot of one or more store subtrees is rendered as a line-oriented
//! text document: a fixed header line, then for every subtree a section
//! `[root\segment\...]` followed by one `name=value` line per stored value,
//! recursing depth-first, pre-order, into every child container with a
//! non-empty name.  Values are encoded by their declared kind: strings are
//! quoted with embedded quotes backslash-escaped, 32-bit integers become
//! `dword:` and eight lowercase hex digits in little-endian byte order,
//! expandable strings become `hex(2):` and comma-separated lowercase hex
//! octet pairs, and every other kind falls back to an empty quoted string.

use crate::errors::Error;
use crate::paths::{PathArena, PathHandle};
use crate::store::{lemma_children_view, node_view, resolve, resolve_path, Node, NodeView, RegValue, RegValueView};
use crate::text::push_char;
use vstd::prelude::*;
use vstd::string::StringExecFns;

verus! {

/// The lowercase hex digit for `n` (meaningful for `0 <= n < 16`).
pub open spec fn hex_digit(n: int) -> char {
    if n == 0 {
        '0'
    } else if n == 1 {
        '1'
    } else if n == 2 {
        '2'
    } else if n == 3 {
        '3'
    } else if n == 4 {
        '4'
    } else if n == 5 {
        '5'
    } else if n == 6 {
        '6'
    } else if n == 7 {
        '7'
    } else if n == 8 {
        '8'
    } else if n == 9 {
        '9'
    } else if n == 10 {
        'a'
    } else if n == 11 {
        'b'
    } else if n == 12 {
        'c'
    } else if n == 13 {
        'd'
    } else if n == 14 {
        'e'
    } else {
        'f'
    }
}

/// One byte as two lowercase hex digits.
pub open spec fn hex_pair(b: u8) -> Seq<char> {
    seq![hex_digit(b as int / 16), hex_digit(b as int % 16)]
}

/// A 32-bit integer as eight lowercase hex digits, least significant byte
/// first.
pub open spec fn dword_hex(d: u32) -> Seq<char> {
    hex_pair((d % 256) as u8) + hex_pair(((d / 256) % 256) as u8) + hex_pair(
        ((d / 65536) % 256) as u8,
    ) + hex_pair(((d / 16777216) % 256) as u8)
}

/// Bytes as comma-separated lowercase hex octet pairs, no trailing comma.
pub open spec fn hex_bytes(bytes: Seq<u8>) -> Seq<char>
    decreases bytes.len(),
{
    if bytes.len() == 0 {
        Seq::empty()
    } else if bytes.len() == 1 {
        hex_pair(bytes[0])
    } else {
        hex_pair(bytes[0]) + seq![','] + hex_bytes(bytes.drop_first())
    }
}

/// `s` with every double quote prefixed by a backslash.
pub open spec fn escape_quotes(s: Seq<char>) -> Seq<char>
    decreases s.len(),
{
    if s.len() == 0 {
        Seq::empty()
    } else if s[0] == '"' {
        seq!['\\', '"'] + escape_quotes(s.drop_first())
    } else {
        seq![s[0]] + escape_quotes(s.drop_first())
    }
}

/// The text encoding of one value, by its declared kind.
pub open spec fn encoded_value(v: RegValueView) -> Seq<char> {
    match v {
        RegValueView::Str(s) => seq!['"'] + escape_quotes(s) + seq!['"'],
        RegValueView::Expand(b) => "hex(2):"@ + hex_bytes(b),
        RegValueView::Dword(d) => "dword:"@ + dword_hex(d),
        RegValueView::Other => seq!['"', '"'],
    }
}

/// One `name=value` line: the default (empty) name is written `@`, any other
/// name is quoted with embedded quotes escaped.
pub open spec fn value_line(name: Seq<char>, v: RegValueView) -> Seq<char> {
    (if name.len() == 0 {
        seq!['@']
    } else {
        seq!['"'] + escape_quotes(name) + seq!['"']
    }) + seq!['='] + encoded_value(v) + seq!['\n']
}

/// The value lines of `vals[i..]`, in stored order.
pub open spec fn value_lines_from(vals: Seq<(Seq<char>, RegValueView)>, i: int) -> Seq<char>
    decreases vals.len() - i,
{
    if i < 0 || i >= vals.len() {
        Seq::empty()
    } else {
        value_line(vals[i].0, vals[i].1) + value_lines_from(vals, i + 1)
    }
}

/// The section opener for a path name: a blank line, then `[path]`.
pub open spec fn section_header(path_name: Seq<char>) -> Seq<char> {
    seq!['\n', '['] + path_name + seq![']', '\n']
}

/// The export text of one container: its section header and value lines,
/// then every child with a non-empty name, depth-first in stored order.
pub open spec fn export_node(n: NodeView, path_name: Seq<char>) -> Seq<char>
    decreases n, 0int,
{
    section_header(path_name) + value_lines_from(n.values, 0) + export_children_from(
        n.children,
        0,
        path_name,
    )
}

/// The export text of the children `cs[i..]`, each under
/// `path_name \ child-name`; children with empty names are skipped.
pub open spec fn export_children_from(
    cs: Seq<(Seq<char>, NodeView)>,
    i: int,
    path_name: Seq<char>,
) -> Seq<char>
    decreases cs, cs.len() - i,
{
    if i < 0 || i >= cs.len() {
        Seq::empty()
    } else {
        (if cs[i].0.len() == 0 {
            Seq::<char>::empty()
        } else {
            export_node(cs[i].1, path_name + seq!['\\'] + cs[i].0)
        }) + export_children_from(cs, i + 1, path_name)
    }
}

/// Path segments joined by backslashes.
pub open spec fn join_segments(segs: Seq<Seq<char>>) -> Seq<char>
    decreases segs.len(),
{
    if segs.len() == 0 {
        Seq::empty()
    } else if segs.len() == 1 {
        segs[0]
    } else {
        join_segments(segs.drop_last()) + seq!['\\'] + segs.last()
    }
}

/// The full section path of a subtree: the root name, a backslash, and the
/// joined segments.
pub open spec fn section_path(root_name: Seq<char>, segs: Seq<Seq<char>>) -> Seq<char> {
    root_name + seq!['\\'] + join_segments(segs)
}

/// The combined export text of the requested subtrees, in request order;
/// a path that does not resolve contributes nothing.
pub open spec fn export_document(
    root: NodeView,
    root_name: Seq<char>,
    paths: Seq<Seq<Seq<char>>>,
) -> Seq<char>
    decreases paths.len(),
{
    if paths.len() == 0 {
        Seq::empty()
    } else {
        (match resolve(root, paths[0]) {
            Option::Some(n) => export_node(n, section_path(root_name, paths[0])),
            Option::None => Seq::<char>::empty(),
        }) + export_document(root, root_name, paths.drop_first())
    }
}

/// Whether at least one requested path resolves.
pub open spec fn any_path_resolves(root: NodeView, paths: Seq<Seq<Seq<char>>>) -> bool {
    exists|i: int| 0 <= i < paths.len() && resolve(root, #[trigger] paths[i]) is Some
}

/// The fixed first line of every export document.
pub open spec fn export_header() -> Seq<char> {
    "Windows Registry Editor Version 5.00\n"@
}

/// The lowercase hex digit character for `n < 16`.
fn hex_digit_char(n: u8) -> (c: char)
    requires
        n < 16,
    ensures
        c == hex_digit(n as int),
{
    match n {
        0 => '0',
        1 => '1',
        2 => '2',
        3 => '3',
        4 => '4',
        5 => '5',
        6 => '6',
        7 => '7',
        8 => '8',
        9 => '9',
        10 => 'a',
        11 => 'b',
        12 => 'c',
        13 => 'd',
        14 => 'e',
        _ => 'f',
    }
}

/// Appends the two hex digits of one byte.
fn push_hex_pair(out: &mut String, b: u8)
    ensures
        final(out)@ == old(out)@ + hex_pair(b),
{
    push_char(out, hex_digit_char(b / 16));
    push_char(out, hex_digit_char(b % 16));
    proof {
        assert(out@ =~= old(out)@ + hex_pair(b));
    }
}

/// Appends the comma-separated hex pairs of `bytes`.
fn push_hex_bytes(out: &mut String, bytes: &Vec<u8>)
    ensures
        final(out)@ == old(out)@ + hex_bytes(bytes@),
{
    let n = bytes.len();
    let mut i: usize = 0;
    proof {
        assert(bytes@.skip(0) =~= bytes@);
    }
    while i < n
        invariant
            i <= n,
            n == bytes@.len(),
            out@ + hex_bytes(bytes@.skip(i as int)) == old(out)@ + hex_bytes(bytes@),
        decreases n - i,
    {
        proof {
            assert(bytes@.skip(i as int)[0] == bytes@[i as int]);
            assert(bytes@.skip(i as int).drop_first() =~= bytes@.skip(i as int + 1));
        }
        let ghost before = out@;
        push_hex_pair(out, bytes[i]);
        if i + 1 < n {
            push_char(out, ',');
            proof {
                assert(out@ =~= before + hex_pair(bytes@[i as int]) + seq![',']);
                assert(out@ + hex_bytes(bytes@.skip(i as int + 1)) =~= before + hex_bytes(
                    bytes@.skip(i as int),
                ));
            }
        } else {
            proof {
                assert(bytes@.skip(i as int).len() == 1);
                assert(out@ + hex_bytes(bytes@.skip(i as int + 1)) =~= before + hex_bytes(
                    bytes@.skip(i as int),
                ));
            }
        }
        i += 1;
    }
    proof {
        assert(bytes@.skip(n as int) =~= Seq::<u8>::empty());
        assert(out@ =~= out@ + hex_bytes(bytes@.skip(n as int)));
    }
}

/// Appends `s` with every double quote backslash-escaped.
fn push_escaped(out: &mut String, s: &str)
    ensures
        final(out)@ == old(out)@ + escape_quotes(s@),
{
    let n = s.unicode_len();
    let mut i: usize = 0;
    proof {
        assert(s@.skip(0) =~= s@);
    }
    while i < n
        invariant
            i <= n,
            n == s@.len(),
            out@ + escape_quotes(s@.skip(i as int)) == old(out)@ + escape_quotes(s@),
        decreases n - i,
    {
        proof {
            assert(s@.skip(i as int)[0] == s@[i as int]);
            assert(s@.skip(i as int).drop_first() =~= s@.skip(i as int + 1));
        }
        let ghost before = out@;
        let c = s.get_char(i);
        if c == '"' {
            push_char(out, '\\');
            push_char(out, '"');
            proof {
                assert(out@ =~= before + seq!['\\', '"']);
                assert(out@ + escape_quotes(s@.skip(i as int + 1)) =~= before + escape_quotes(
                    s@.skip(i as int),
                ));
            }
        } else {
            push_char(out, c);
            proof {
                assert(out@ =~= before + seq![s@[i as int]]);
                assert(out@ + escape_quotes(s@.skip(i as int + 1)) =~= before + escape_quotes(
                    s@.skip(i as int),
                ));
            }
        }
        i += 1;
    }
    proof {
        assert(s@.skip(n as int) =~= Seq::<char>::empty());
        assert(out@ =~= out@ + escape_quotes(s@.skip(n as int)));
    }
}

/// The text encoding of one value, by its declared kind.
pub fn encode_value(v: &RegValue) -> (r: String)
    ensures
        r@ == encoded_value(v@),
{
    let mut out = String::new();
    match v {
        RegValue::Str(s) => {
            push_char(&mut out, '"');
            push_escaped(&mut out, s.as_str());
            push_char(&mut out, '"');
            proof {
                assert(out@ =~= encoded_value(v@));
            }
        },
        RegValue::Expand(b) => {
            out.append("hex(2):");
            push_hex_bytes(&mut out, b);
            proof {
                assert(out@ =~= encoded_value(v@));
            }
        },
        RegValue::Dword(d) => {
            out.append("dword:");
            let d = *d;
            push_hex_pair(&mut out, (d % 256) as u8);
            push_hex_pair(&mut out, ((d / 256) % 256) as u8);
            push_hex_pair(&mut out, ((d / 65536) % 256) as u8);
            push_hex_pair(&mut out, ((d / 16777216) % 256) as u8);
            proof {
                assert(out@ =~= encoded_value(v@));
            }
        },
        RegValue::Other => {
            push_char(&mut out, '"');
            push_char(&mut out, '"');
            proof {
                assert(out@ =~= encoded_value(v@));
            }
        },
    }
    out
}

/// Appends one `name=value` line.
fn push_value_line(out: &mut String, name: &str, v: &RegValue)
    ensures
        final(out)@ == old(out)@ + value_line(name@, v@),
{
    if name.is_empty() {
        push_char(out, '@');
    } else {
        push_char(out, '"');
        push_escaped(out, name);
        push_char(out, '"');
    }
    push_char(out, '=');
    let enc = encode_value(v);
    out.append(enc.as_str());
    push_char(out, '\n');
    proof {
        assert(out@ =~= old(out)@ + value_line(name@, v@));
    }
}

/// Appends the export text of `n` under the section path `path_name`.
fn export_node_into(n: &Node, path_name: &str, out: &mut String)
    ensures
        final(out)@ == old(out)@ + export_node(n@, path_name@),
    decreases *n,
{
    push_char(out, '\n');
    push_char(out, '[');
    out.append(path_name);
    push_char(out, ']');
    push_char(out, '\n');
    let ghost after_header = out@;
    proof {
        assert(after_header =~= old(out)@ + section_header(path_name@));
    }
    let m = n.values.len();
    let mut i: usize = 0;
    while i < m
        invariant
            i <= m,
            m == n.values@.len(),
            n@.values.len() == m,
            forall|k: int| 0 <= k < m ==> #[trigger] n@.values[k] == (
                n.values@[k].0@,
                n.values@[k].1@,
            ),
            out@ + value_lines_from(n@.values, i as int) == after_header + value_lines_from(
                n@.values,
                0,
            ),
        decreases m - i,
    {
        let pair = &n.values[i];
        push_value_line(out, pair.0.as_str(), &pair.1);
        i += 1;
    }
    proof {
        assert(out@ =~= out@ + value_lines_from(n@.values, m as int));
    }
    let ghost after_values = out@;
    let c = n.children.len();
    let mut j: usize = 0;
    proof {
        lemma_children_view(n.children@);
    }
    while j < c
        invariant
            j <= c,
            c == n.children@.len(),
            n@.children.len() == c,
            forall|k: int| 0 <= k < c ==> #[trigger] n@.children[k] == (
                n.children@[k].0@,
                node_view(n.children@[k].1),
            ),
            out@ + export_children_from(n@.children, j as int, path_name@) == after_values
                + export_children_from(n@.children, 0, path_name@),
        decreases c - j,
    {
        let pair = &n.children[j];
        if !pair.0.as_str().is_empty() {
            let mut child_path = path_name.to_owned();
            push_char(&mut child_path, '\\');
            child_path.append(pair.0.as_str());
            proof {
                assert(child_path@ =~= path_name@ + seq!['\\'] + n@.children[j as int].0);
            }
            export_node_into(&pair.1, child_path.as_str(), out);
        }
        j += 1;
    }
    proof {
        assert(out@ =~= out@ + export_children_from(n@.children, c as int, path_name@));
        assert(export_node(n@, path_name@) =~= section_header(path_name@) + value_lines_from(
            n@.values,
            0,
        ) + export_children_from(n@.children, 0, path_name@));
    }
}

/// The full section path of a subtree as text.
fn joined_path_name(root_name: &str, segs: &Vec<String>) -> (r: String)
    ensures
        r@ == section_path(root_name@, segs.deep_view()),
{
    let ghost dv = segs.deep_view();
    let mut s = root_name.to_owned();
    push_char(&mut s, '\\');
    let n = segs.len();
    let mut i: usize = 0;
    proof {
        assert(dv.take(0) =~= Seq::<Seq<char>>::empty());
    }
    while i < n
        invariant
            i <= n,
            n == segs@.len(),
            dv == segs.deep_view(),
            s@ == root_name@ + seq!['\\'] + join_segments(dv.take(i as int)),
        decreases n - i,
    {
        proof {
            let t = dv.take(i as int + 1);
            assert(t.drop_last() =~= dv.take(i as int));
            assert(t.last() == dv[i as int]);
            assert(dv[i as int] == segs@[i as int]@);
        }
        if i > 0 {
            push_char(&mut s, '\\');
        }
        s.append(segs[i].as_str());
        proof {
            assert(s@ =~= root_name@ + seq!['\\'] + join_segments(dv.take(i as int + 1)));
        }
        i += 1;
    }
    proof {
        assert(dv.take(n as int) =~= dv);
    }
    s
}

/// Builds the export document for the requested paths.
///
/// Every path that resolves contributes its subtree, in request order; a
/// path that does not resolve is omitted without aborting the rest.  The
/// call fails only when paths were requested and none of them resolved; an
/// empty request yields the bare header.
pub fn export_paths(
    store: &Node,
    arena: &PathArena,
    root_name: &str,
    paths: &Vec<PathHandle>,
) -> (r: Result<String, Error>)
    requires
        forall|k: int| 0 <= k < paths@.len() ==> arena.valid(#[trigger] paths@[k]),
    ensures
        ({
            let pviews = Seq::new(paths@.len(), |k: int| arena.path(paths@[k]));
            match r {
                Result::Ok(doc) => (paths@.len() == 0 || any_path_resolves(store@, pviews)) && doc@
                    == export_header() + export_document(store@, root_name@, pviews),
                Result::Err(e) => e == Error::NotFound && paths@.len() > 0 && !any_path_resolves(
                    store@,
                    pviews,
                ),
            }
        }),
{
    let ghost pviews = Seq::new(paths@.len(), |k: int| arena.path(paths@[k]));
    let mut doc = "Windows Registry Editor Version 5.00\n".to_owned();
    let mut any: bool = false;
    let n = paths.len();
    let mut i: usize = 0;
    proof {
        assert(pviews.skip(0) =~= pviews);
    }
    while i < n
        invariant
            i <= n,
            n == paths@.len(),
            pviews == Seq::new(paths@.len(), |k: int| arena.path(paths@[k])),
            forall|k: int| 0 <= k < paths@.len() ==> arena.valid(#[trigger] paths@[k]),
            any == exists|k: int|
                0 <= k < i && resolve(store@, #[trigger] pviews[k]) is Some,
            doc@ + export_document(store@, root_name@, pviews.skip(i as int)) == export_header()
                + export_document(store@, root_name@, pviews),
        decreases n - i,
    {
        proof {
            assert(pviews.skip(i as int)[0] == pviews[i as int]);
            assert(pviews.skip(i as int).drop_first() =~= pviews.skip(i as int + 1));
        }
        let segs = arena.segments(paths[i]);
        let ghost before = doc@;
        match resolve_path(store, segs) {
            Option::Some(node) => {
                let name = joined_path_name(root_name, segs);
                export_node_into(node, name.as_str(), &mut doc);
                any = true;
                proof {
                    assert(doc@ + export_document(store@, root_name@, pviews.skip(i as int + 1))
                        =~= before + export_document(store@, root_name@, pviews.skip(i as int)));
                }
            },
            Option::None => {
                proof {
                    assert(doc@ + export_document(store@, root_name@, pviews.skip(i as int + 1))
                        =~= before + export_document(store@, root_name@, pviews.skip(i as int)));
                }
            },
        }
        i += 1;
    }
    proof {
        assert(pviews.skip(n as int) =~= Seq::<Seq<Seq<char>>>::empty());
        assert(doc@ =~= export_header() + export_document(store@, root_name@, pviews));
    }
    if any || n == 0 {
        Ok(doc)
    } else {
        Err(Error::NotFound)
    }
}

/// Relies on `chrono::Local::now` and `DateTime::format`: the current local
/// time rendered as `YYYY-MM-DD-HH-MM-SS`.  The result depends on the clock,
/// so nothing is promised of it.
#[verifier::external_body]
fn current_date_time() -> String {
    chrono::Local::now().format("%Y-%m-%d-%H-%M-%S").to_string()
}

/// The snapshot file name for a given store root and timestamp text.
pub fn backup_file_name_for(root_name: &str, stamp: &str) -> (r: String)
    ensures
        r@ == "backup-"@ + root_name@ + "-"@ + stamp@ + ".reg"@,
{
    let mut s = "backup-".to_owned();
    s.append(root_name);
    s.append("-");
    s.append(stamp);
    s.append(".reg");
    proof {
        assert(s@ =~= "backup-"@ + root_name@ + "-"@ + stamp@ + ".reg"@);
    }
    s
}

/// The snapshot file name for a store root and the current local time:
/// `backup-<root>-YYYY-MM-DD-HH-MM-SS.reg`.
pub fn backup_file_name(root_name: &str) -> (r: String)
    ensures
        exists|stamp: Seq<char>|
            r@ == "backup-"@ + root_name@ + "-"@ + stamp + ".reg"@,
{
    let stamp = current_date_time();
    let r = backup_file_name_for(root_name, stamp.as_str());
    proof {
        assert(r@ == "backup-"@ + root_name@ + "-"@ + stamp@ + ".reg"@);
    }
    r
}

} // verus!
