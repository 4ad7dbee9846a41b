//! What holds of every source and asset.

use crate::files::{dir_above, dirs_holding, FileTree};
use crate::path_laws;
use crate::paths::{
    absolute, all_names, all_steps, climbed, is_name, path_join, path_name, path_of,
    path_parent, path_within, place, segments,
};
use crate::semantic::assets::{dir_of, is_meta, leads_to_asset, place_of, references_in, regex_escaped};
use crate::semantic::collect::{from_workspace, is_reached, is_skipped_dir, is_source, walked_path};
use crate::semantic::positions::position_of;
use crate::semantic::queries;
use crate::semantic::queries::{is_member_access, own_name, places};
use crate::semantic::syntax::NodeKind;
use crate::text::{contains_text, has_suffix, Text};
use crate::types::ExportView;
use vstd::prelude::*;
use vstd::utf8::encode_utf8;

verus! {

/// The ending is one of TypeScript or JavaScript.
pub open spec fn is_ending(e: Text) -> bool {
    e == ".ts"@ || e == ".tsx"@ || e == ".mts"@ || e == ".cts"@ || e == ".js"@ || e == ".jsx"@ || e
        == ".mjs"@ || e == ".cjs"@
}

/// A file is a source only where its name is something before such an ending.
pub proof fn lemma_only_sources(p: Text)
    ensures
        is_source(p) ==> path_name(p) is Some && exists|stem: Text, e: Text|
            stem.len() > 0 && #[trigger] is_ending(e) && path_name(p)->0 == #[trigger] (stem + e),
{
    if is_source(p) {
        let name = path_name(p)->0;
        let e = if has_ending(name, ".ts"@) {
            ".ts"@
        } else if has_ending(name, ".tsx"@) {
            ".tsx"@
        } else if has_ending(name, ".mts"@) {
            ".mts"@
        } else if has_ending(name, ".cts"@) {
            ".cts"@
        } else if has_ending(name, ".js"@) {
            ".js"@
        } else if has_ending(name, ".jsx"@) {
            ".jsx"@
        } else if has_ending(name, ".mjs"@) {
            ".mjs"@
        } else {
            ".cjs"@
        };
        assert(is_ending(e));
        assert(has_ending(name, e));
        let stem = name.take(name.len() - e.len());
        assert(name.subrange(name.len() - e.len(), name.len() as int) == e);
        assert(name =~= stem + e);
    }
}

/// The name is something before the ending.
pub open spec fn has_ending(name: Text, e: Text) -> bool {
    has_suffix(name, e) && name.len() > e.len()
}

/// A path below the workspace is seen from its root; any other stays as it is.
pub proof fn lemma_from_workspace(from_root: bool, cwd: Seq<Text>, rest: Seq<Text>, p: Text)
    requires
        all_steps(cwd),
        all_steps(rest),
    ensures
        from_workspace(path_of(from_root, cwd + rest), path_of(from_root, cwd)) == path_of(
            false,
            rest,
        ),
        path_within(p, path_of(from_root, cwd)) is None ==> from_workspace(
            p,
            path_of(from_root, cwd),
        ) == p,
{
    path_laws::lemma_below(from_root, cwd, rest);
}

/// A walk comes by a file below its root unless a directory on the way, or the root itself, is one that
/// is skipped; the name of the file itself does not matter.
pub proof fn lemma_reached(root: Seq<Text>, way: Seq<Text>, file: Text, k: int)
    requires
        root.len() > 0,
        all_names(root),
        all_names(way),
        is_name(file),
    ensures
        !is_skipped_dir(root.last()) && (forall|j: int|
            0 <= j < way.len() ==> !is_skipped_dir(#[trigger] way[j])) ==> is_reached(
            path_of(true, root + way.push(file)),
            path_of(true, root),
        ),
        0 <= k < way.len() && is_skipped_dir(way[k]) ==> !is_reached(
            path_of(true, root + way.push(file)),
            path_of(true, root),
        ),
        is_skipped_dir(root.last()) ==> !is_reached(
            path_of(true, root + way.push(file)),
            path_of(true, root),
        ),
        is_reached(path_of(true, root), path_of(true, root)),
        walked_path(path_of(true, root), path_of(true, root)) == path_of(true, root),
{
    let down = way.push(file);
    let all = root + down;
    assert forall|i: int| 0 <= i < all.len() implies is_name(#[trigger] all[i]) by {
        if i < root.len() {
            assert(all[i] == root[i]);
        } else if i - root.len() < way.len() {
            assert(all[i] == way[i - root.len()]);
        } else {
            assert(all[i] == file);
        }
    }
    lemma_steps(root);
    lemma_steps(down);
    lemma_steps(all);
    let base = path_of(true, root);
    let p = path_of(true, all);
    crate::paths::lemma_segments_of_path(true, root);
    crate::paths::lemma_segments_of_path(true, all);
    lemma_climbed_names(root);
    assert(absolute(base));
    assert(place(base) == base);
    path_laws::lemma_below(true, root, down);
    assert(segments(p).skip(segments(place(base)).len() as int) =~= down);
    let init = root.drop_last();
    assert(root =~= init.push(root.last()));
    lemma_steps(init);
    assert(is_name(root[root.len() - 1]));
    path_laws::lemma_parent_and_name(true, init, root.last());
    assert(crate::semantic::collect::root_name(base) == root.last());
    let walked = crate::semantic::collect::way_down(p, base);
    assert(walked == down);
    assert forall|j: int| 0 <= j < way.len() implies down[j] == way[j] by {}
    if 0 <= k < way.len() && is_skipped_dir(way[k]) {
        assert(is_skipped_dir(walked[k]));
    }
    let none = Seq::<Text>::empty();
    path_laws::lemma_below(true, root, none);
    assert(root + none =~= root);
    assert(segments(base).skip(segments(place(base)).len() as int) =~= none);
}

proof fn lemma_steps(segs: Seq<Text>)
    requires
        forall|i: int| 0 <= i < segs.len() ==> is_name(#[trigger] segs[i]),
    ensures
        all_steps(segs),
        all_names(segs),
{
    assert forall|i: int| 0 <= i < segs.len() implies crate::paths::is_step(#[trigger] segs[i]) by {
        assert(is_name(segs[i]));
    }
}

proof fn lemma_climbed_names(segs: Seq<Text>)
    requires
        all_names(segs),
    ensures
        climbed(true, segs) == segs,
    decreases segs.len(),
{
    if segs.len() > 0 {
        let init = segs.drop_last();
        assert forall|i: int| 0 <= i < init.len() implies is_name(#[trigger] init[i]) by {
            assert(init[i] == segs[i]);
        }
        lemma_climbed_names(init);
        assert(is_name(segs[segs.len() - 1]));
        path_laws::lemma_climbed(true, init, segs.last());
        assert(segs =~= init.push(segs.last()));
    }
}

// ---------------------------------------------------------------------------
// Assets
// ---------------------------------------------------------------------------

/// Escaping goes character by character, and puts a backslash before each that means something in a
/// regular expression, and before no other.
pub proof fn lemma_regex_escaped(s: Text, c: char)
    ensures
        regex_escaped(Seq::empty()).len() == 0,
        is_meta(c) ==> regex_escaped(s.push(c)) == regex_escaped(s).push('\\').push(c),
        !is_meta(c) ==> regex_escaped(s.push(c)) == regex_escaped(s).push(c),
        is_meta('.') && is_meta('\\') && is_meta('+') && is_meta('*') && is_meta('?') && is_meta('(')
            && is_meta(')') && is_meta('[') && is_meta(']') && is_meta('{') && is_meta('}')
            && is_meta('|') && is_meta('^') && is_meta('$') && is_meta('#') && is_meta('&')
            && is_meta('-') && is_meta('~'),
        'a' <= c <= 'z' || 'A' <= c <= 'Z' || '0' <= c <= '9' || c == '_' || c == '/' ==> !is_meta(c),
{
    assert(s.push(c).drop_last() =~= s);
}

/// A path in a source is taken from the directory of the source, and leads to the asset where both are
/// one place.
pub proof fn lemma_leads_to_asset(cwd: Text, source: Text, dir: Text, path: Text, asset: Text)
    ensures
        path_parent(source) == Some(dir) ==> (leads_to_asset(cwd, source, path, asset) <==> place_of(
            path_join(path_join(cwd, dir), path),
        ) == place_of(path_join(cwd, asset))),
        path_parent(source) == Some(dir) ==> dir_of(source) == dir,
        path_parent(source) is None ==> dir_of(source) == "."@,
{
}

/// A source that does not hold the name of the asset has no reference to it, and an asset without a name
/// has none at all.
pub proof fn lemma_no_references(cwd: Text, source: Text, content: Text, asset: Text)
    ensures
        path_name(asset) is Some && !contains_text(content, path_name(asset)->0) ==> references_in(
            cwd,
            source,
            content,
            asset,
        ).len() == 0,
        path_name(asset) is None ==> references_in(cwd, source, content, asset).len() == 0,
{
}

// ---------------------------------------------------------------------------
// Places in a source
// ---------------------------------------------------------------------------

/// A use is reported in its file, at the line and the column of its offset.
pub proof fn lemma_places(file: Text, source: Text, offsets: Seq<u32>, i: int)
    requires
        0 <= i < offsets.len(),
    ensures
        places(file, source, offsets).len() == offsets.len(),
        places(file, source, offsets)[i].file_path == file,
        (places(file, source, offsets)[i].line, places(file, source, offsets)[i].column)
            == position_of(encode_utf8(source), offsets[i] as nat),
        queries::place(file, source, offsets[i] as nat) == places(file, source, offsets)[i],
{
}

/// A member access names the namespace on its left and the property on its right, in an expression as
/// in a type; nothing else is one.
pub proof fn lemma_member_access(
    kind: NodeKind,
    object: String,
    property: String,
    namespace: Text,
    name: Text,
)
    ensures
        is_member_access(
            NodeKind::Member { object: Some(object), property },
            namespace,
            name,
        ) <==> object@ == namespace && property@ == name,
        is_member_access(
            NodeKind::Qualified { left: Some(object), right: property },
            namespace,
            name,
        ) <==> object@ == namespace && property@ == name,
        !(kind is Member) && !(kind is Qualified) ==> !is_member_access(kind, namespace, name),
        kind is Member && kind->object is None ==> !is_member_access(kind, namespace, name),
        kind is Qualified && kind->left is None ==> !is_member_access(kind, namespace, name),
{
}

/// An export goes in its own file by its local name, and without one by its name outside.
pub proof fn lemma_own_name(e: ExportView, n: Text)
    ensures
        e.local_name == Some(n) ==> own_name(e) == n,
        e.local_name is None ==> own_name(e) == e.exported_name,
{
}

// ---------------------------------------------------------------------------
// Files
// ---------------------------------------------------------------------------

/// Two paths that lead to one place are one file, one directory and one content.
pub proof fn lemma_same_place(tree: FileTree, p: Text, q: Text)
    requires
        place(p) == place(q),
    ensures
        tree.has_file(p) == tree.has_file(q),
        tree.has_dir(p) == tree.has_dir(q),
        tree.present(p) == tree.present(q),
        tree.content(p) == tree.content(q),
        tree.present(p) <==> tree.has_file(p) || tree.has_dir(p),
        tree.content(p) is Some ==> tree.has_file(p),
{
}

/// The directories that hold a path are those on the way to it, and the root; the path itself is none.
pub proof fn lemma_dirs_holding(dirs: Seq<Text>, rest: Seq<Text>)
    requires
        all_names(dirs),
        all_names(rest),
        rest.len() > 0,
    ensures
        dirs_holding(path_of(true, dirs + rest)).contains(path_of(true, dirs)),
{
    let all = dirs + rest;
    assert forall|i: int| 0 <= i < all.len() implies is_name(#[trigger] all[i]) by {
        if i < dirs.len() {
            assert(all[i] == dirs[i]);
        } else {
            assert(all[i] == rest[i - dirs.len()]);
        }
    }
    lemma_steps(all);
    crate::paths::lemma_segments_of_path(true, all);
    lemma_climbed_names(all);
    let p = path_of(true, all);
    let k = dirs.len() as int;
    assert(all.take(k) =~= dirs);
    assert(absolute(p));
    assert(dir_above(p, k) == path_of(true, dirs));
}

} // verus!
