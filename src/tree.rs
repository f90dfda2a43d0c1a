//! The commit tree builder: rebuilds a tree object graph with some files'
//! content replaced, copying on write along the edited paths only.
use crate::error::BumpError;
use crate::replacers::file;
use vstd::prelude::*;
use vstd::slice::slice_to_vec;
use vstd::utf8::encode_utf8;

verus! {

/// The id that git gives an object of this kind (a tree, or else a blob)
/// and content.
pub uninterp spec fn object_hash(tree: bool, data: Seq<u8>) -> Seq<u8>;

/// Relies on gix::objs::compute_hash: the SHA-1 object id, 20 bytes long,
/// of a tree or blob with this content.
#[verifier::external_body]
fn hash_object(tree: bool, data: &[u8]) -> (r: Vec<u8>)
    ensures
        r@ == object_hash(tree, data@),
        r@.len() == 20,
{
    let kind = if tree {
        gix::objs::Kind::Tree
    } else {
        gix::objs::Kind::Blob
    };
    gix::objs::compute_hash(gix::hash::Kind::Sha1, kind, data).as_bytes().to_vec()
}

/// What a tree entry points to.
#[derive(Clone, Copy, Debug, PartialEq, Eq, Structural)]
pub enum EntryKind {
    /// A subtree.
    Tree,
    /// A file's content, executable or not.
    Blob,
    /// A symbolic link, stored as a blob.
    Link,
    /// A nested repository's commit; never edited.
    Commit,
}

/// One entry of a tree: its mode as written in the tree (octal digits), its
/// name, the id of what it points to, and the kind of that.
#[derive(Debug)]
pub struct TreeEntry {
    pub mode: Vec<u8>,
    pub name: Vec<u8>,
    pub oid: Vec<u8>,
    pub kind: EntryKind,
}

/// A tree object of the reference tree: its id and its entries in order.
#[derive(Debug)]
pub struct TreeObject {
    pub oid: Vec<u8>,
    pub entries: Vec<TreeEntry>,
}

/// An object that the rebuilt tree needs written to the object store.
#[derive(Debug)]
pub struct NewObject {
    pub tree: bool,
    pub oid: Vec<u8>,
    pub data: Vec<u8>,
}

/// The rebuilt root tree's id and the objects to write for it.
#[derive(Debug)]
pub struct TreeBuild {
    pub root: Vec<u8>,
    pub written: Vec<NewObject>,
}

/// An entry as (mode, name, id).
pub type EntryView = (Seq<u8>, Seq<u8>, Seq<u8>);

/// How git writes one tree entry: mode, a space, the name, a NUL and the id.
pub open spec fn entry_encoding(e: EntryView) -> Seq<u8> {
    e.0 + seq![32u8] + e.1 + seq![0u8] + e.2
}

/// How git writes a tree: its entries one after another.
pub open spec fn tree_encoding(entries: Seq<EntryView>) -> Seq<u8>
    decreases entries.len(),
{
    if entries.len() == 0 {
        Seq::empty()
    } else {
        tree_encoding(entries.drop_last()) + entry_encoding(entries.last())
    }
}

/// `path` lies under `prefix`.
pub open spec fn under(path: Seq<u8>, prefix: Seq<u8>) -> bool {
    prefix.len() <= path.len() && path.subrange(0, prefix.len() as int) == prefix
}

/// Some edited path lies under `prefix`.
pub open spec fn touched(prefix: Seq<u8>, paths: Seq<Seq<u8>>) -> bool {
    exists|i: int| 0 <= i < paths.len() && under(#[trigger] paths[i], prefix)
}

/// The path of entry `name` in the tree at `prefix`.
pub open spec fn child_path(prefix: Seq<u8>, name: Seq<u8>) -> Seq<u8> {
    prefix + name
}

/// The prefix of the paths inside subtree `name` of the tree at `prefix`.
pub open spec fn child_prefix(prefix: Seq<u8>, name: Seq<u8>) -> Seq<u8> {
    prefix + name + seq![47u8]
}

/// The first edit of exactly this path.
pub open spec fn edit_for(path: Seq<u8>, paths: Seq<Seq<u8>>) -> Option<int>
    decreases paths.len(),
{
    if paths.len() == 0 {
        None
    } else {
        match edit_for(path, paths.drop_last()) {
            Some(i) => Some(i),
            None => if paths.last() == path {
                Some(paths.len() - 1)
            } else {
                None
            },
        }
    }
}

/// Whether entry `e` of the tree at `prefix` accounts for the edited `path`:
/// a file or link at that path, or a subtree that the path lies under.
pub open spec fn claims(e: TreeEntry, prefix: Seq<u8>, path: Seq<u8>) -> bool {
    match e.kind {
        EntryKind::Tree => under(path, child_prefix(prefix, e.name@)),
        EntryKind::Blob | EntryKind::Link => path == child_path(prefix, e.name@),
        EntryKind::Commit => false,
    }
}

/// Some entry of the tree at `prefix` accounts for the edited `path`.
pub open spec fn claimed(entries: Seq<TreeEntry>, prefix: Seq<u8>, path: Seq<u8>) -> bool {
    exists|k: int| 0 <= k < entries.len() && claims(#[trigger] entries[k], prefix, path)
}

/// The first edited path under `prefix` that is no file of the tree at
/// `prefix`: the plan is stale there.
pub open spec fn first_stale(entries: Seq<TreeEntry>, prefix: Seq<u8>, paths: Seq<Seq<u8>>) -> Option<int>
    decreases paths.len(),
{
    if paths.len() == 0 {
        None
    } else {
        match first_stale(entries, prefix, paths.drop_last()) {
            Some(i) => Some(i),
            None => if under(paths.last(), prefix) && !claimed(entries, prefix, paths.last()) {
                Some(paths.len() - 1)
            } else {
                None
            },
        }
    }
}

/// The index of the first stored tree with this id.
pub open spec fn find_tree(store: Seq<TreeObject>, oid: Seq<u8>) -> Option<int>
    decreases store.len(),
{
    if store.len() == 0 {
        None
    } else {
        match find_tree(store.drop_last(), oid) {
            Some(i) => Some(i),
            None => if store.last().oid@ == oid {
                Some(store.len() - 1)
            } else {
                None
            },
        }
    }
}

/// The length of the longest edited path.
pub open spec fn longest(paths: Seq<Seq<u8>>) -> int
    decreases paths.len(),
{
    if paths.len() == 0 {
        0
    } else {
        let m = longest(paths.drop_last());
        if paths.last().len() > m {
            paths.last().len() as int
        } else {
            m
        }
    }
}

/// The id of the tree `oid`, found at `prefix`, once rebuilt. The error is
/// `Some(i)` where edited path `i` is stale, `None` where a tree is
/// missing from the store; the first met, in the order the entries come.
pub open spec fn rebuilt_tree(
    store: Seq<TreeObject>,
    oid: Seq<u8>,
    prefix: Seq<u8>,
    paths: Seq<Seq<u8>>,
    contents: Seq<Seq<u8>>,
) -> Result<Seq<u8>, Option<int>>
    decreases longest(paths) - prefix.len(), 1int, 0int,
{
    if prefix.len() > longest(paths) {
        Err(None)
    } else {
        match find_tree(store, oid) {
            None => Err(None),
            Some(t) => {
                let entries = store[t].entries@;
                match first_stale(entries, prefix, paths) {
                    Some(i) => Err(Some(i)),
                    None => match rebuilt_entries(store, entries, prefix, paths, contents) {
                        Err(x) => Err(x),
                        Ok(new_entries) => Ok(object_hash(true, tree_encoding(new_entries))),
                    },
                }
            },
        }
    }
}

/// The entries of the tree at `prefix`, each pointing to its rebuilt
/// object: a touched subtree to its rebuilt id, an edited file to its new
/// content's id, anything else to what it pointed to.
pub open spec fn rebuilt_entries(
    store: Seq<TreeObject>,
    entries: Seq<TreeEntry>,
    prefix: Seq<u8>,
    paths: Seq<Seq<u8>>,
    contents: Seq<Seq<u8>>,
) -> Result<Seq<EntryView>, Option<int>>
    decreases longest(paths) - prefix.len(), 0int, entries.len(),
{
    if entries.len() == 0 {
        Ok(Seq::empty())
    } else {
        match rebuilt_entries(store, entries.drop_last(), prefix, paths, contents) {
            Err(x) => Err(x),
            Ok(front) => {
                let e = entries.last();
                let id = match e.kind {
                    EntryKind::Tree => {
                        let sub = child_prefix(prefix, e.name@);
                        if touched(sub, paths) && sub.len() <= longest(paths) {
                            rebuilt_tree(store, e.oid@, sub, paths, contents)
                        } else {
                            Ok(e.oid@)
                        }
                    },
                    EntryKind::Blob | EntryKind::Link => match edit_for(
                        child_path(prefix, e.name@),
                        paths,
                    ) {
                        Some(i) => if i < contents.len() {
                            Ok(object_hash(false, contents[i]))
                        } else {
                            Err(None)
                        },
                        None => Ok(e.oid@),
                    },
                    EntryKind::Commit => Ok(e.oid@),
                };
                match id {
                    Err(x) => Err(x),
                    Ok(id) => Ok(front.push((e.mode@, e.name@, id))),
                }
            },
        }
    }
}

/// The edited paths, as bytes.
pub open spec fn edit_paths(edits: Seq<file::Replacer>) -> Seq<Seq<u8>> {
    edits.map_values(|e: file::Replacer| encode_utf8(e.path@))
}

/// The edited contents.
pub open spec fn edit_contents(edits: Seq<file::Replacer>) -> Seq<Seq<u8>> {
    edits.map_values(|e: file::Replacer| e.contents@)
}

/// The rebuilt root's id: the reference root itself when nothing is edited.
pub open spec fn built_root(store: Seq<TreeObject>, root: Seq<u8>, edits: Seq<file::Replacer>) -> Result<
    Seq<u8>,
    Option<int>,
> {
    let paths = edit_paths(edits);
    if !touched(Seq::empty(), paths) {
        Ok(root)
    } else {
        rebuilt_tree(store, root, Seq::empty(), paths, edit_contents(edits))
    }
}

/// Every object is stored under the id of its kind and content.
pub open spec fn content_addressed(objects: Seq<NewObject>) -> bool {
    forall|k: int|
        0 <= k < objects.len() ==> (#[trigger] objects[k]).oid@ == object_hash(
            objects[k].tree,
            objects[k].data@,
        )
}


/// The byte views of some byte vectors.
pub open spec fn views(v: Seq<Vec<u8>>) -> Seq<Seq<u8>> {
    v.map_values(|p: Vec<u8>| p@)
}

/// Tells whether two byte strings are equal.
fn bytes_equal(a: &[u8], b: &[u8]) -> (r: bool)
    ensures
        r == (a@ == b@),
{
    if a.len() != b.len() {
        return false;
    }
    let mut i: usize = 0;
    while i < a.len()
        invariant
            i <= a@.len(),
            a@.len() == b@.len(),
            forall|k: int| 0 <= k < i ==> a@[k] == b@[k],
        decreases a@.len() - i,
    {
        if a[i] != b[i] {
            return false;
        }
        i = i + 1;
    }
    assert(a@ =~= b@);
    true
}

/// Tells whether `path` lies under `prefix`.
fn is_under(path: &[u8], prefix: &[u8]) -> (r: bool)
    ensures
        r == under(path@, prefix@),
{
    if prefix.len() > path.len() {
        return false;
    }
    let mut i: usize = 0;
    while i < prefix.len()
        invariant
            i <= prefix@.len() <= path@.len(),
            forall|k: int| 0 <= k < i ==> path@[k] == prefix@[k],
        decreases prefix@.len() - i,
    {
        if path[i] != prefix[i] {
            assert(path@.subrange(0, prefix@.len() as int)[i as int] != prefix@[i as int]);
            return false;
        }
        i = i + 1;
    }
    assert(path@.subrange(0, prefix@.len() as int) =~= prefix@);
    true
}

/// Tells whether some edited path lies under `prefix`.
fn is_touched(prefix: &[u8], paths: &Vec<Vec<u8>>) -> (r: bool)
    ensures
        r == touched(prefix@, views(paths@)),
{
    let mut i: usize = 0;
    while i < paths.len()
        invariant
            i <= paths@.len(),
            forall|k: int| 0 <= k < i ==> !under(#[trigger] views(paths@)[k], prefix@),
        decreases paths@.len() - i,
    {
        if is_under(paths[i].as_slice(), prefix) {
            assert(under(views(paths@)[i as int], prefix@));
            return true;
        }
        i = i + 1;
    }
    false
}

/// Finds the first edit of exactly this path.
fn find_edit(path: &[u8], paths: &Vec<Vec<u8>>) -> (r: Option<usize>)
    ensures
        r matches Some(i) ==> i < paths@.len(),
        r matches Some(i) ==> edit_for(path@, views(paths@)) == Some(i as int),
        r is None ==> edit_for(path@, views(paths@)) is None,
{
    let ghost ps = views(paths@);
    let mut i: usize = 0;
    while i < paths.len()
        invariant
            i <= paths@.len(),
            ps == views(paths@),
            edit_for(path@, ps.take(i as int)) is None,
        decreases paths@.len() - i,
    {
        assert(ps.take(i + 1).drop_last() =~= ps.take(i as int));
        if bytes_equal(paths[i].as_slice(), path) {
            assert(edit_for(path@, ps.take(i + 1)) == Some(i as int));
            proof {
                lemma_edit_for_prefix(path@, ps, i + 1);
            }
            return Some(i);
        }
        i = i + 1;
    }
    assert(ps.take(i as int) =~= ps);
    None
}

proof fn lemma_edit_for_prefix(path: Seq<u8>, ps: Seq<Seq<u8>>, m: int)
    requires
        0 <= m <= ps.len(),
        edit_for(path, ps.take(m)) is Some,
    ensures
        edit_for(path, ps) == edit_for(path, ps.take(m)),
    decreases ps.len() - m,
{
    if m < ps.len() {
        assert(ps.take(m + 1).drop_last() =~= ps.take(m));
        lemma_edit_for_prefix(path, ps, m + 1);
    } else {
        assert(ps.take(m) =~= ps);
    }
}

proof fn lemma_find_tree_prefix(store: Seq<TreeObject>, oid: Seq<u8>, m: int)
    requires
        0 <= m <= store.len(),
        find_tree(store.take(m), oid) is Some,
    ensures
        find_tree(store, oid) == find_tree(store.take(m), oid),
    decreases store.len() - m,
{
    if m < store.len() {
        assert(store.take(m + 1).drop_last() =~= store.take(m));
        lemma_find_tree_prefix(store, oid, m + 1);
    } else {
        assert(store.take(m) =~= store);
    }
}

/// Finds the first stored tree with this id.
fn find_tree_index(store: &Vec<TreeObject>, oid: &[u8]) -> (r: Option<usize>)
    ensures
        r matches Some(t) ==> t < store@.len() && find_tree(store@, oid@) == Some(t as int),
        r is None ==> find_tree(store@, oid@) is None,
{
    let mut i: usize = 0;
    while i < store.len()
        invariant
            i <= store@.len(),
            find_tree(store@.take(i as int), oid@) is None,
        decreases store@.len() - i,
    {
        assert(store@.take(i + 1).drop_last() =~= store@.take(i as int));
        if bytes_equal(store[i].oid.as_slice(), oid) {
            assert(find_tree(store@.take(i + 1), oid@) == Some(i as int));
            proof {
                lemma_find_tree_prefix(store@, oid@, i + 1);
            }
            return Some(i);
        }
        i = i + 1;
    }
    assert(store@.take(i as int) =~= store@);
    None
}

/// `prefix` followed by `name`, and a slash where `slash` is set.
fn join(prefix: &[u8], name: &[u8], slash: bool) -> (r: Vec<u8>)
    ensures
        slash ==> r@ == child_prefix(prefix@, name@),
        !slash ==> r@ == child_path(prefix@, name@),
{
    let mut r = slice_to_vec(prefix);
    let mut i: usize = 0;
    while i < name.len()
        invariant
            i <= name@.len(),
            r@ == prefix@ + name@.subrange(0, i as int),
        decreases name@.len() - i,
    {
        r.push(name[i]);
        assert(name@.subrange(0, i + 1) =~= name@.subrange(0, i as int).push(name@[i as int]));
        i = i + 1;
    }
    assert(name@.subrange(0, name@.len() as int) =~= name@);
    if slash {
        r.push(47u8);
    }
    r
}

/// Tells whether entry `e` accounts for the edited `path`.
fn entry_claims(e: &TreeEntry, prefix: &[u8], path: &[u8]) -> (r: bool)
    ensures
        r == claims(*e, prefix@, path@),
{
    match e.kind {
        EntryKind::Tree => {
            let sub = join(prefix, e.name.as_slice(), true);
            is_under(path, sub.as_slice())
        },
        EntryKind::Blob | EntryKind::Link => {
            let full = join(prefix, e.name.as_slice(), false);
            bytes_equal(path, full.as_slice())
        },
        EntryKind::Commit => false,
    }
}

proof fn lemma_first_stale_prefix(entries: Seq<TreeEntry>, prefix: Seq<u8>, ps: Seq<Seq<u8>>, m: int)
    requires
        0 <= m <= ps.len(),
        first_stale(entries, prefix, ps.take(m)) is Some,
    ensures
        first_stale(entries, prefix, ps) == first_stale(entries, prefix, ps.take(m)),
    decreases ps.len() - m,
{
    if m < ps.len() {
        assert(ps.take(m + 1).drop_last() =~= ps.take(m));
        lemma_first_stale_prefix(entries, prefix, ps, m + 1);
    } else {
        assert(ps.take(m) =~= ps);
    }
}

/// Finds the first edited path under `prefix` that no entry accounts for.
fn stale_index(entries: &Vec<TreeEntry>, prefix: &[u8], paths: &Vec<Vec<u8>>) -> (r: Option<usize>)
    ensures
        r matches Some(i) ==> i < paths@.len() && first_stale(entries@, prefix@, views(paths@)) == Some(
            i as int,
        ),
        r is None ==> first_stale(entries@, prefix@, views(paths@)) is None,
{
    let ghost ps = views(paths@);
    let mut i: usize = 0;
    while i < paths.len()
        invariant
            i <= paths@.len(),
            ps == views(paths@),
            first_stale(entries@, prefix@, ps.take(i as int)) is None,
        decreases paths@.len() - i,
    {
        proof {
            assert(ps.take(i + 1).drop_last() =~= ps.take(i as int));
            assert(ps.take(i + 1).last() == ps[i as int]);
        }
        if is_under(paths[i].as_slice(), prefix) {
            let mut k: usize = 0;
            let mut found = false;
            while k < entries.len() && !found
                invariant
                    k <= entries@.len(),
                    i < paths@.len(),
                    ps == views(paths@),
                    found ==> claimed(entries@, prefix@, ps[i as int]),
                    !found ==> forall|k2: int|
                        0 <= k2 < k ==> !claims(#[trigger] entries@[k2], prefix@, ps[i as int]),
                decreases entries@.len() - k,
            {
                if entry_claims(&entries[k], prefix, paths[i].as_slice()) {
                    found = true;
                    assert(claims(entries@[k as int], prefix@, ps[i as int]));
                }
                k = k + 1;
            }
            if !found {
                assert(first_stale(entries@, prefix@, ps.take(i + 1)) == Some(i as int));
                proof {
                    lemma_first_stale_prefix(entries@, prefix@, ps, i + 1);
                }
                return Some(i);
            }
        }
        i = i + 1;
    }
    assert(ps.take(i as int) =~= ps);
    None
}

/// Appends `b` to `out`.
fn append(out: &mut Vec<u8>, b: &[u8])
    ensures
        final(out)@ == old(out)@ + b@,
{
    let mut i: usize = 0;
    while i < b.len()
        invariant
            i <= b@.len(),
            out@ == old(out)@ + b@.subrange(0, i as int),
        decreases b@.len() - i,
    {
        out.push(b[i]);
        assert(b@.subrange(0, i + 1) =~= b@.subrange(0, i as int).push(b@[i as int]));
        i = i + 1;
    }
    assert(b@.subrange(0, b@.len() as int) =~= b@);
}

/// The length of the longest edited path.
fn longest_path(paths: &Vec<Vec<u8>>) -> (r: usize)
    ensures
        r as int == longest(views(paths@)),
{
    let ghost ps = views(paths@);
    let mut m: usize = 0;
    let mut i: usize = 0;
    while i < paths.len()
        invariant
            i <= paths@.len(),
            ps == views(paths@),
            m as int == longest(ps.take(i as int)),
        decreases paths@.len() - i,
    {
        assert(ps.take(i + 1).drop_last() =~= ps.take(i as int));
        if paths[i].len() > m {
            m = paths[i].len();
        }
        i = i + 1;
    }
    assert(ps.take(i as int) =~= ps);
    m
}


proof fn lemma_entries_fail(
    store: Seq<TreeObject>,
    entries: Seq<TreeEntry>,
    prefix: Seq<u8>,
    paths: Seq<Seq<u8>>,
    contents: Seq<Seq<u8>>,
    m: int,
)
    requires
        0 <= m <= entries.len(),
        rebuilt_entries(store, entries.take(m), prefix, paths, contents) is Err,
    ensures
        rebuilt_entries(store, entries, prefix, paths, contents) == rebuilt_entries(
            store,
            entries.take(m),
            prefix,
            paths,
            contents,
        ),
    decreases entries.len() - m,
{
    if m < entries.len() {
        assert(entries.take(m + 1).drop_last() =~= entries.take(m));
        lemma_entries_fail(store, entries, prefix, paths, contents, m + 1);
    } else {
        assert(entries.take(m) =~= entries);
    }
}

/// `r` is the executable form of the spec outcome `o`: the same id, the
/// stale edit's path, or a missing tree.
pub open spec fn outcome_matches(
    r: Result<Vec<u8>, BumpError>,
    o: Result<Seq<u8>, Option<int>>,
    edits: Seq<file::Replacer>,
) -> bool {
    match o {
        Ok(id) => r matches Ok(x) && x@ == id,
        Err(Some(i)) => 0 <= i < edits.len() && (r matches Err(BumpError::StaleTarget(p)) && p@
            == edits[i].path@),
        Err(None) => r matches Err(e) && e is MissingTree,
    }
}

/// Rebuilds the tree `oid` found at `prefix`, adding to `written` the new
/// objects it needs.
fn rebuild_tree(
    store: &Vec<TreeObject>,
    oid: &[u8],
    prefix: &Vec<u8>,
    paths: &Vec<Vec<u8>>,
    edits: &Vec<file::Replacer>,
    bound: usize,
    written: &mut Vec<NewObject>,
) -> (r: Result<Vec<u8>, BumpError>)
    requires
        bound as int == longest(views(paths@)),
        paths@.len() == edits@.len(),
        content_addressed(old(written)@),
    ensures
        content_addressed(final(written)@),
        outcome_matches(
            r,
            rebuilt_tree(store@, oid@, prefix@, views(paths@), edit_contents(edits@)),
            edits@,
        ),
    decreases bound - prefix@.len(),
{
    let ghost ps = views(paths@);
    let ghost cs = edit_contents(edits@);
    if prefix.len() > bound {
        return Err(BumpError::MissingTree);
    }
    let t = match find_tree_index(store, oid) {
        Some(t) => t,
        None => return Err(BumpError::MissingTree),
    };
    let entries = &store[t].entries;
    if let Some(i) = stale_index(entries, prefix.as_slice(), paths) {
        return Err(BumpError::StaleTarget(edits[i].path.clone()));
    }
    let ghost mut rebuilt: Seq<EntryView> = Seq::empty();
    let mut encoding: Vec<u8> = Vec::new();
    let mut k: usize = 0;
    while k < entries.len()
        invariant
            k <= entries@.len(),
            bound as int == longest(ps),
            ps == views(paths@),
            cs == edit_contents(edits@),
            paths@.len() == edits@.len(),
            prefix@.len() <= bound,
            *entries == store@[t as int].entries,
            t < store@.len(),
            find_tree(store@, oid@) == Some(t as int),
            first_stale(entries@, prefix@, ps) is None,
            content_addressed(written@),
            rebuilt_entries(store@, entries@.take(k as int), prefix@, ps, cs) == Ok::<
                Seq<EntryView>,
                Option<int>,
            >(rebuilt),
            encoding@ == tree_encoding(rebuilt),
        decreases entries@.len() - k,
    {
        let e = &entries[k];
        proof {
            assert(entries@.take(k + 1).drop_last() =~= entries@.take(k as int));
            assert(entries@.take(k + 1).last() == entries@[k as int]);
        }
        let id: Vec<u8> = match e.kind {
            EntryKind::Tree => {
                let sub = join(prefix.as_slice(), e.name.as_slice(), true);
                if is_touched(sub.as_slice(), paths) && sub.len() <= bound {
                    match rebuild_tree(store, e.oid.as_slice(), &sub, paths, edits, bound, written) {
                        Ok(id) => id,
                        Err(err) => {
                            proof {
                                let tk = entries@.take(k + 1);
                                assert(tk.last() == *e);
                                let x = rebuilt_tree(store@, e.oid@, sub@, ps, cs);
                                assert(x is Err);
                                let xe = x->Err_0;
                                assert(rebuilt_entries(store@, tk, prefix@, ps, cs) == Err::<Seq<EntryView>, Option<int>>(xe));
                                lemma_entries_fail(store@, entries@, prefix@, ps, cs, k + 1);
                                assert(rebuilt_entries(store@, store@[t as int].entries@, prefix@, ps, cs) == Err::<Seq<EntryView>, Option<int>>(xe));
                                assert(find_tree(store@, oid@) == Some(t as int));
                                assert(rebuilt_tree(store@, oid@, prefix@, ps, cs) == x);
                            }
                            return Err(err);
                        },
                    }
                } else {
                    slice_to_vec(e.oid.as_slice())
                }
            },
            EntryKind::Blob | EntryKind::Link => {
                let full = join(prefix.as_slice(), e.name.as_slice(), false);
                match find_edit(full.as_slice(), paths) {
                    Some(i) => {
                        let data = edits[i].contents.as_slice();
                        assert(cs[i as int] == data@);
                        let h = hash_object(false, data);
                        let ghost before = written@;
                        written.push(NewObject { tree: false, oid: slice_to_vec(h.as_slice()), data: slice_to_vec(data) });
                        assert forall|j: int| 0 <= j < written@.len() implies (#[trigger] written@[j]).oid@ == object_hash(
                            written@[j].tree,
                            written@[j].data@,
                        ) by {
                            if j < before.len() {
                                assert(written@[j] == before[j]);
                            }
                        }
                        h
                    },
                    None => slice_to_vec(e.oid.as_slice()),
                }
            },
            EntryKind::Commit => slice_to_vec(e.oid.as_slice()),
        };
        let ghost prev = rebuilt;
        proof {
            rebuilt = rebuilt.push((e.mode@, e.name@, id@));
        }
        append(&mut encoding, e.mode.as_slice());
        encoding.push(32u8);
        append(&mut encoding, e.name.as_slice());
        encoding.push(0u8);
        append(&mut encoding, id.as_slice());
        proof {
            assert(rebuilt.drop_last() =~= prev);
            let last = rebuilt.last();
            assert(encoding@ =~= tree_encoding(prev) + entry_encoding(last));
        }
        k = k + 1;
    }
    assert(entries@.take(k as int) =~= entries@);
    let h = hash_object(true, encoding.as_slice());
    let ghost before = written@;
    written.push(NewObject { tree: true, oid: slice_to_vec(h.as_slice()), data: encoding });
    assert forall|j: int| 0 <= j < written@.len() implies (#[trigger] written@[j]).oid@ == object_hash(
        written@[j].tree,
        written@[j].data@,
    ) by {
        if j < before.len() {
            assert(written@[j] == before[j]);
        }
    }
    Ok(h)
}

/// Rebuilds the reference tree `root` with each edited file's content
/// replaced, given the reference trees in `store`. Only the trees along
/// edited paths get new objects; with nothing edited the root is returned
/// unchanged. Fails with a stale target when an edited path is no file of
/// the tree, and when a tree along an edited path is not in `store`.
pub fn build_tree(store: &Vec<TreeObject>, root: &Vec<u8>, edits: &Vec<file::Replacer>) -> (r: Result<
    TreeBuild,
    BumpError,
>)
    ensures
        match built_root(store@, root@, edits@) {
            Ok(id) => r matches Ok(b) && b.root@ == id && content_addressed(b.written@),
            Err(Some(i)) => 0 <= i < edits@.len() && (r matches Err(BumpError::StaleTarget(p)) && p@
                == edits@[i].path@),
            Err(None) => r matches Err(e) && e is MissingTree,
        },
        !touched(Seq::empty(), edit_paths(edits@)) ==> (r matches Ok(b) && b.written@.len() == 0),
{
    let mut paths: Vec<Vec<u8>> = Vec::new();
    let mut i: usize = 0;
    while i < edits.len()
        invariant
            i <= edits@.len(),
            paths@.len() == i,
            forall|j: int| 0 <= j < i ==> (#[trigger] paths@[j])@ == encode_utf8(edits@[j].path@),
        decreases edits@.len() - i,
    {
        paths.push(slice_to_vec(edits[i].path.as_str().as_bytes()));
        i = i + 1;
    }
    assert(views(paths@) =~= edit_paths(edits@));
    let empty: Vec<u8> = Vec::new();
    assert(empty@ =~= Seq::<u8>::empty());
    if !is_touched(empty.as_slice(), &paths) {
        return Ok(TreeBuild { root: slice_to_vec(root.as_slice()), written: Vec::new() });
    }
    let bound = longest_path(&paths);
    let mut written: Vec<NewObject> = Vec::new();
    match rebuild_tree(store, root.as_slice(), &empty, &paths, edits, bound, &mut written) {
        Ok(id) => Ok(TreeBuild { root: id, written }),
        Err(e) => Err(e),
    }
}

} // verus!
