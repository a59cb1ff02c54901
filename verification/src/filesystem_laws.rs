//! What holds of the file tree whatever is done to it.

use crate::filesystem::{
    ascending, is_listing, lists, parent_segment, step, DirModel, DirOp, FileSystemModel,
};
use crate::text::{lemma_lex_asymmetric, lemma_lex_transitive, lex_lt};
use vstd::prelude::*;

verus! {

/// `cd ..` at the root changes nothing.
pub proof fn lemma_parent_of_root(fs: FileSystemModel)
    requires
        fs.path.len() == 0,
    ensures
        fs.can_enter(parent_segment()),
        fs.entered(parent_segment()) == fs,
{
}

/// Replacing the directory that a path leads to makes the path lead to
/// the replacement.
pub proof fn lemma_resolve_replaced(root: DirModel, path: Seq<Seq<char>>, d: DirModel)
    requires
        root.resolve(path) is Some,
    ensures
        root.replace_at(path, d).resolve(path) == Some(d),
    decreases path.len(),
{
    if path.len() > 0 {
        lemma_resolve_replaced(root.dirs[path[0]], path.drop_first(), d);
    }
}

/// A path that leads to a directory can be extended by the name of any of
/// its subdirectories, and then leads to that subdirectory.
pub proof fn lemma_resolve_child(root: DirModel, path: Seq<Seq<char>>, name: Seq<char>)
    requires
        root.resolve(path) is Some,
        root.resolve(path)->0.dirs.contains_key(name),
    ensures
        root.resolve(path.push(name)) == Some(root.resolve(path)->0.dirs[name]),
    decreases path.len(),
{
    let longer = path.push(name);
    if path.len() == 0 {
        assert(longer.drop_first() =~= Seq::<Seq<char>>::empty());
        assert(root.dirs[name].resolve(longer.drop_first()) == Some(root.dirs[name]));
    } else {
        lemma_resolve_child(root.dirs[path[0]], path.drop_first(), name);
        assert(longer.drop_first() =~= path.drop_first().push(name));
    }
}

/// Every path that leads somewhere does so through a parent that exists.
pub proof fn lemma_resolve_parent(root: DirModel, path: Seq<Seq<char>>)
    requires
        path.len() > 0,
        root.resolve(path) is Some,
    ensures
        root.resolve(path.drop_last()) is Some,
    decreases path.len(),
{
    if path.len() > 1 {
        lemma_resolve_parent(root.dirs[path[0]], path.drop_first());
        assert(path.drop_last().drop_first() =~= path.drop_first().drop_last());
    }
}

/// Where a path leads to a directory, so does each of its prefixes: every
/// segment names a subdirectory of the directory before it.
pub proof fn lemma_prefixes_resolve(root: DirModel, path: Seq<Seq<char>>, k: int)
    requires
        root.resolve(path) is Some,
        0 <= k <= path.len(),
    ensures
        root.resolve(path.take(k)) is Some,
        k < path.len() ==> root.resolve(path.take(k))->0.dirs.contains_key(path[k]),
    decreases path.len(),
{
    if k == 0 {
        assert(path.take(0) =~= Seq::<Seq<char>>::empty());
    } else {
        lemma_prefixes_resolve(root.dirs[path[0]], path.drop_first(), k - 1);
        assert(path.take(k).drop_first() =~= path.drop_first().take(k - 1));
    }
}

/// The current path keeps leading to a directory: after a change of the
/// current directory's content, and after any `cd` that succeeds.
pub proof fn lemma_current_stays(fs: FileSystemModel, d: DirModel, segment: Seq<char>)
    requires
        fs.current() is Some,
    ensures
        fs.with_current(d).current() == Some(d),
        fs.can_enter(segment) ==> fs.entered(segment).current() is Some,
{
    lemma_resolve_replaced(fs.root, fs.path, d);
    if fs.can_enter(segment) {
        if segment == parent_segment() {
            if fs.path.len() > 0 {
                lemma_resolve_parent(fs.root, fs.path);
            }
        } else {
            lemma_resolve_child(fs.root, fs.path, segment);
        }
    }
}

/// Two ascending sequences with the same members are the same sequence.
pub proof fn lemma_ascending_unique(a: Seq<Seq<char>>, b: Seq<Seq<char>>)
    requires
        ascending(a),
        ascending(b),
        forall|n: Seq<char>| a.contains(n) <==> b.contains(n),
    ensures
        a == b,
    decreases a.len(),
{
    if a.len() == 0 {
        if b.len() > 0 {
            assert(b.contains(b[0]));
        }
        assert(a =~= b);
    } else if b.len() == 0 {
        assert(a.contains(a[0]));
    } else {
        assert(a.contains(a[0]));
        assert(b.contains(b[0]));
        let i = choose|i: int| 0 <= i < b.len() && b[i] == a[0];
        let j = choose|j: int| 0 <= j < a.len() && a[j] == b[0];
        if i > 0 && j > 0 {
            lemma_lex_transitive(b[0], b[i], a[j]);
            lemma_lex_asymmetric(b[0], a[j]);
        } else if i > 0 {
            lemma_lex_asymmetric(b[0], b[i]);
        } else if j > 0 {
            lemma_lex_asymmetric(a[0], a[j]);
        }
        assert(a[0] == b[0]);
        let ta = a.drop_first();
        let tb = b.drop_first();
        assert forall|n: Seq<char>| ta.contains(n) <==> tb.contains(n) by {
            if ta.contains(n) {
                let x = choose|x: int| 0 <= x < ta.len() && ta[x] == n;
                assert(a[x + 1] == n);
                assert(a.contains(n));
                lemma_lex_asymmetric(a[0], a[x + 1]);
                let y = choose|y: int| 0 <= y < b.len() && b[y] == n;
                assert(tb[y - 1] == n);
            }
            if tb.contains(n) {
                let y = choose|y: int| 0 <= y < tb.len() && tb[y] == n;
                assert(b[y + 1] == n);
                assert(b.contains(n));
                lemma_lex_asymmetric(b[0], b[y + 1]);
                let x = choose|x: int| 0 <= x < a.len() && a[x] == n;
                assert(ta[x - 1] == n);
            }
        }
        assert(ascending(ta)) by {
            assert forall|x: int, y: int| 0 <= x < y < ta.len() implies lex_lt(
                #[trigger] ta[x],
                #[trigger] ta[y],
            ) by {
                assert(ta[x] == a[x + 1] && ta[y] == a[y + 1]);
            }
        }
        assert(ascending(tb)) by {
            assert forall|x: int, y: int| 0 <= x < y < tb.len() implies lex_lt(
                #[trigger] tb[x],
                #[trigger] tb[y],
            ) by {
                assert(tb[x] == b[x + 1] && tb[y] == b[y + 1]);
            }
        }
        lemma_ascending_unique(ta, tb);
        assert(a =~= seq![a[0]] + ta);
        assert(b =~= seq![b[0]] + tb);
    }
}

/// A directory has one listing: what it holds fixes the entries and
/// their order.
pub proof fn lemma_listing_unique(
    d: DirModel,
    first: Seq<(Seq<char>, bool)>,
    second: Seq<(Seq<char>, bool)>,
)
    requires
        is_listing(d, first),
        is_listing(d, second),
    ensures
        first == second,
{
    let k1 = choose|k: int| lists(d, first, k);
    let k2 = choose|k: int| lists(d, second, k);
    let n1 = Seq::new(first.len(), |i: int| first[i].0);
    let n2 = Seq::new(second.len(), |i: int| second[i].0);
    assert forall|n: Seq<char>| n1.take(k1).contains(n) <==> n2.take(k2).contains(n) by {
        assert(d.dirs.contains_key(n) <==> n1.take(k1).contains(n));
        assert(d.dirs.contains_key(n) <==> n2.take(k2).contains(n));
    }
    assert forall|n: Seq<char>| n1.skip(k1).contains(n) <==> n2.skip(k2).contains(n) by {
        assert(d.files.contains_key(n) <==> n1.skip(k1).contains(n));
        assert(d.files.contains_key(n) <==> n2.skip(k2).contains(n));
    }
    lemma_ascending_unique(n1.take(k1), n2.take(k2));
    lemma_ascending_unique(n1.skip(k1), n2.skip(k2));
    assert(k1 == k2) by {
        assert(n1.take(k1).len() == k1);
        assert(n2.take(k2).len() == k2);
    }
    assert(first.len() == second.len()) by {
        assert(n1.skip(k1).len() == first.len() - k1);
        assert(n2.skip(k2).len() == second.len() - k2);
    }
    assert forall|i: int| 0 <= i < first.len() implies first[i] == second[i] by {
        if i < k1 {
            assert(n1.take(k1)[i] == n2.take(k2)[i]);
            assert(n1[i] == first[i].0);
            assert(n2[i] == second[i].0);
        } else {
            assert(n1.skip(k1)[i - k1] == n2.skip(k2)[i - k1]);
            assert(n1[i] == first[i].0);
            assert(n2[i] == second[i].0);
        }
        assert(first[i].1 == (i < k1));
        assert(second[i].1 == (i < k2));
    }
    assert(first =~= second);
}


/// The directory after the operations, first to last.
pub open spec fn run(d: DirModel, ops: Seq<DirOp>) -> DirModel
    decreases ops.len(),
{
    if ops.len() == 0 {
        d
    } else {
        step(run(d, ops.drop_last()), ops.last())
    }
}

/// The tree after the operations on the current directory, first to
/// last.
pub open spec fn run_in_current(fs: FileSystemModel, ops: Seq<DirOp>) -> FileSystemModel
    decreases ops.len(),
{
    if ops.len() == 0 {
        fs
    } else {
        run_in_current(fs, ops.drop_last()).applied(ops.last())
    }
}

/// The file `n` was written, with whatever content, and no later
/// operation deleted `n`.
pub open spec fn file_live(ops: Seq<DirOp>, n: Seq<char>) -> bool {
    exists|i: int|
        0 <= i < ops.len() && (#[trigger] ops[i]).writes(n) && forall|j: int|
            i < j < ops.len() ==> #[trigger] ops[j] != DirOp::Delete(n)
}

/// A subdirectory `n` was made and every later deletion of `n` found a
/// file of that name to remove in its place.
pub open spec fn dir_live(ops: Seq<DirOp>, n: Seq<char>) -> bool {
    exists|i: int|
        0 <= i < ops.len() && #[trigger] ops[i] == DirOp::CreateDirectory(n) && forall|j: int|
            i < j < ops.len() && #[trigger] ops[j] == DirOp::Delete(n) ==> file_live(
                ops.take(j),
                n,
            )
}

/// The content that the last writing of the file `n` gave it; the empty
/// text where `n` was never written.
pub open spec fn last_content(ops: Seq<DirOp>, n: Seq<char>) -> Seq<char>
    decreases ops.len(),
{
    if ops.len() == 0 {
        Seq::empty()
    } else {
        match ops.last() {
            DirOp::CreateFile(m, content) if m == n => content,
            _ => last_content(ops.drop_last(), n),
        }
    }
}

proof fn lemma_file_live_step(ops: Seq<DirOp>, n: Seq<char>)
    requires
        ops.len() > 0,
    ensures
        file_live(ops, n) == (ops.last().writes(n) || (ops.last() != DirOp::Delete(n)
            && file_live(ops.drop_last(), n))),
{
    let init = ops.drop_last();
    let last = ops.len() - 1;
    if file_live(ops, n) {
        let i = choose|i: int|
            0 <= i < ops.len() && (#[trigger] ops[i]).writes(n) && forall|j: int|
                i < j < ops.len() ==> #[trigger] ops[j] != DirOp::Delete(n);
        if i < last {
            assert(ops[last] != DirOp::Delete(n));
            assert(init[i].writes(n));
            assert forall|j: int| i < j < init.len() implies #[trigger] init[j] != DirOp::Delete(
                n,
            ) by {
                assert(init[j] == ops[j]);
            }
        }
    }
    if ops.last().writes(n) {
        assert(ops[last].writes(n));
    } else if ops.last() != DirOp::Delete(n) && file_live(init, n) {
        let i = choose|i: int|
            0 <= i < init.len() && (#[trigger] init[i]).writes(n) && forall|j: int|
                i < j < init.len() ==> #[trigger] init[j] != DirOp::Delete(n);
        assert(ops[i].writes(n));
        assert forall|j: int| i < j < ops.len() implies #[trigger] ops[j] != DirOp::Delete(n) by {
            if j < last {
                assert(init[j] == ops[j]);
            }
        }
    }
}

proof fn lemma_dir_live_step(ops: Seq<DirOp>, n: Seq<char>)
    requires
        ops.len() > 0,
    ensures
        dir_live(ops, n) == (ops.last() == DirOp::CreateDirectory(n) || (dir_live(
            ops.drop_last(),
            n,
        ) && (ops.last() == DirOp::Delete(n) ==> file_live(ops.drop_last(), n)))),
{
    let init = ops.drop_last();
    let last = ops.len() - 1;
    assert(ops.take(last) =~= init);
    if dir_live(ops, n) {
        let i = choose|i: int|
            0 <= i < ops.len() && #[trigger] ops[i] == DirOp::CreateDirectory(n) && forall|j: int|
                i < j < ops.len() && #[trigger] ops[j] == DirOp::Delete(n) ==> file_live(
                    ops.take(j),
                    n,
                );
        if i < last {
            assert(init[i] == DirOp::CreateDirectory(n));
            assert forall|j: int|
                i < j < init.len() && #[trigger] init[j] == DirOp::Delete(n) implies file_live(
                init.take(j),
                n,
            ) by {
                assert(init[j] == ops[j]);
                assert(init.take(j) =~= ops.take(j));
            }
            if ops.last() == DirOp::Delete(n) {
                assert(ops[last] == DirOp::Delete(n));
            }
        }
    }
    if ops.last() == DirOp::CreateDirectory(n) {
        assert(ops[last] == DirOp::CreateDirectory(n));
    } else if dir_live(init, n) && (ops.last() == DirOp::Delete(n) ==> file_live(init, n)) {
        let i = choose|i: int|
            0 <= i < init.len() && #[trigger] init[i] == DirOp::CreateDirectory(n)
                && forall|j: int|
                i < j < init.len() && #[trigger] init[j] == DirOp::Delete(n) ==> file_live(
                    init.take(j),
                    n,
                );
        assert(ops[i] == DirOp::CreateDirectory(n));
        assert forall|j: int|
            i < j < ops.len() && #[trigger] ops[j] == DirOp::Delete(n) implies file_live(
            ops.take(j),
            n,
        ) by {
            if j < last {
                assert(init[j] == ops[j]);
                assert(init.take(j) =~= ops.take(j));
            }
        }
    }
}

/// Starting from an empty directory, the names it holds after any
/// operations are those made and not deleted since, no more and no fewer;
/// each file holds what was last written to it, and each subdirectory is
/// empty.
pub proof fn lemma_names_after(ops: Seq<DirOp>, n: Seq<char>)
    ensures
        run(DirModel::empty(), ops).files.contains_key(n) == file_live(ops, n),
        run(DirModel::empty(), ops).dirs.contains_key(n) == dir_live(ops, n),
        file_live(ops, n) ==> run(DirModel::empty(), ops).files[n] == last_content(ops, n),
        dir_live(ops, n) ==> run(DirModel::empty(), ops).dirs[n] == DirModel::empty(),
    decreases ops.len(),
{
    if ops.len() > 0 {
        lemma_names_after(ops.drop_last(), n);
        lemma_file_live_step(ops, n);
        lemma_dir_live_step(ops, n);
    }
}

/// No entry occurs twice in a listing.
pub proof fn lemma_listing_distinct(d: DirModel, entries: Seq<(Seq<char>, bool)>)
    requires
        is_listing(d, entries),
    ensures
        forall|i: int, j: int|
            0 <= i < entries.len() && 0 <= j < entries.len() && i != j ==> entries[i]
                != entries[j],
{
    let k = choose|k: int| lists(d, entries, k);
    let names = Seq::new(entries.len(), |i: int| entries[i].0);
    assert forall|i: int, j: int|
        0 <= i < entries.len() && 0 <= j < entries.len() && i != j implies entries[i]
        != entries[j] by {
        assert(entries[i].1 == (i < k));
        assert(entries[j].1 == (j < k));
        let a = if i < j { i } else { j };
        let b = if i < j { j } else { i };
        if b < k {
            assert(names.take(k)[a] == entries[a].0);
            assert(names.take(k)[b] == entries[b].0);
            lemma_lex_asymmetric(names.take(k)[a], names.take(k)[b]);
        } else if a >= k {
            assert(names.skip(k)[a - k] == entries[a].0);
            assert(names.skip(k)[b - k] == entries[b].0);
            lemma_lex_asymmetric(names.skip(k)[a - k], names.skip(k)[b - k]);
        }
    }
}

/// The listing of a directory after any operations on an empty one shows
/// one subdirectory for each one made and not deleted since, then one file
/// for each one written and not deleted since: nothing is missing, nothing
/// is there that should not be, and nothing is shown twice.
pub proof fn lemma_listing_after(ops: Seq<DirOp>, entries: Seq<(Seq<char>, bool)>)
    requires
        is_listing(run(DirModel::empty(), ops), entries),
    ensures
        forall|n: Seq<char>| #[trigger] entries.contains((n, true)) <==> dir_live(ops, n),
        forall|n: Seq<char>| #[trigger] entries.contains((n, false)) <==> file_live(ops, n),
        forall|i: int, j: int|
            0 <= i < entries.len() && 0 <= j < entries.len() && i != j ==> entries[i]
                != entries[j],
{
    let d = run(DirModel::empty(), ops);
    lemma_listing_distinct(d, entries);
    let k = choose|k: int| lists(d, entries, k);
    let names = Seq::new(entries.len(), |i: int| entries[i].0);
    assert forall|n: Seq<char>| #[trigger] entries.contains((n, true)) <==> dir_live(ops, n) by {
        lemma_names_after(ops, n);
        assert(d.dirs.contains_key(n) <==> names.take(k).contains(n));
        if entries.contains((n, true)) {
            let i = choose|i: int| 0 <= i < entries.len() && entries[i] == (n, true);
            assert(entries[i].1 == (i < k));
            assert(names.take(k)[i] == n);
        }
        if names.take(k).contains(n) {
            let i = choose|i: int| 0 <= i < names.take(k).len() && names.take(k)[i] == n;
            assert(entries[i].1 == (i < k));
            assert(entries[i] == (n, true));
        }
    }
    assert forall|n: Seq<char>| #[trigger] entries.contains((n, false)) <==> file_live(ops, n) by {
        lemma_names_after(ops, n);
        assert(d.files.contains_key(n) <==> names.skip(k).contains(n));
        if entries.contains((n, false)) {
            let i = choose|i: int| 0 <= i < entries.len() && entries[i] == (n, false);
            assert(entries[i].1 == (i < k));
            assert(names.skip(k)[i - k] == n);
        }
        if names.skip(k).contains(n) {
            let i = choose|i: int| 0 <= i < names.skip(k).len() && names.skip(k)[i] == n;
            assert(entries[i + k].1 == (i + k < k));
            assert(entries[i + k] == (n, false));
        }
    }
}

/// Operations on the current directory change that directory as
/// [`run`] says and leave the current path alone.
pub proof fn lemma_run_in_current(fs: FileSystemModel, ops: Seq<DirOp>)
    requires
        fs.current() is Some,
    ensures
        run_in_current(fs, ops).path == fs.path,
        run_in_current(fs, ops).current() == Some(run(fs.current()->0, ops)),
    decreases ops.len(),
{
    if ops.len() > 0 {
        let before = run_in_current(fs, ops.drop_last());
        lemma_run_in_current(fs, ops.drop_last());
        let d = before.current()->0;
        lemma_resolve_replaced(before.root, before.path, step(d, ops.last()));
    }
}

/// The tree that [`crate::filesystem::FileSystem::new`] gives.
pub open spec fn new_tree() -> FileSystemModel {
    FileSystemModel { root: DirModel::empty(), path: Seq::empty() }
}

/// Whatever directories and files were made and deleted in the root of a
/// new tree, its listing shows exactly what was made and not deleted since,
/// each once.
pub proof fn lemma_listing_of_new_tree(ops: Seq<DirOp>, entries: Seq<(Seq<char>, bool)>)
    requires
        is_listing(run_in_current(new_tree(), ops).current()->0, entries),
    ensures
        run_in_current(new_tree(), ops).current() is Some,
        forall|n: Seq<char>| #[trigger] entries.contains((n, true)) <==> dir_live(ops, n),
        forall|n: Seq<char>| #[trigger] entries.contains((n, false)) <==> file_live(ops, n),
        forall|i: int, j: int|
            0 <= i < entries.len() && 0 <= j < entries.len() && i != j ==> entries[i]
                != entries[j],
{
    lemma_run_in_current(new_tree(), ops);
    lemma_listing_after(ops, entries);
}

} // verus!
