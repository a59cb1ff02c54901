//! The in-memory file tree: directories that own their files and
//! subdirectories, and a current path that is resolved from the root.

use crate::filesystem_laws::lemma_current_stays;
use crate::text::{
    lemma_lex_asymmetric, lemma_lex_total, lemma_lex_transitive, lex_lt, str_equal, str_less,
};
use vstd::prelude::*;

verus! {

/// What a directory holds, as mathematics: file contents by name and
/// subdirectories by name.
pub struct DirModel {
    pub files: Map<Seq<char>, Seq<char>>,
    pub dirs: Map<Seq<char>, DirModel>,
}

impl DirModel {
    /// The directory that holds nothing.
    pub open spec fn empty() -> DirModel {
        DirModel { files: Map::empty(), dirs: Map::empty() }
    }

    /// The directory reached from here by following `path`, one
    /// subdirectory per segment.
    pub open spec fn resolve(self, path: Seq<Seq<char>>) -> Option<DirModel>
        decreases path.len(),
    {
        if path.len() == 0 {
            Some(self)
        } else if self.dirs.contains_key(path[0]) {
            self.dirs[path[0]].resolve(path.drop_first())
        } else {
            None
        }
    }

    /// This tree with the directory at `path` replaced by `d`; the same
    /// tree where `path` leads nowhere.
    pub open spec fn replace_at(self, path: Seq<Seq<char>>, d: DirModel) -> DirModel
        decreases path.len(),
    {
        if path.len() == 0 {
            d
        } else if self.dirs.contains_key(path[0]) {
            DirModel {
                files: self.files,
                dirs: self.dirs.insert(
                    path[0],
                    self.dirs[path[0]].replace_at(path.drop_first(), d),
                ),
            }
        } else {
            self
        }
    }

    /// With the file `name` holding `content`, whatever it held before.
    pub open spec fn with_file(self, name: Seq<char>, content: Seq<char>) -> DirModel {
        DirModel { files: self.files.insert(name, content), dirs: self.dirs }
    }

    /// With `name` a fresh, empty subdirectory, whatever it was before.
    pub open spec fn with_dir(self, name: Seq<char>) -> DirModel {
        DirModel { files: self.files, dirs: self.dirs.insert(name, DirModel::empty()) }
    }

    /// Whether a file or a subdirectory is called `name`.
    pub open spec fn has(self, name: Seq<char>) -> bool {
        self.files.contains_key(name) || self.dirs.contains_key(name)
    }

    /// Without the file `name`; without the subdirectory `name` where no
    /// such file exists.
    pub open spec fn without(self, name: Seq<char>) -> DirModel {
        if self.files.contains_key(name) {
            DirModel { files: self.files.remove(name), dirs: self.dirs }
        } else {
            DirModel { files: self.files, dirs: self.dirs.remove(name) }
        }
    }
}

/// Names in strictly ascending order.
pub open spec fn ascending(names: Seq<Seq<char>>) -> bool {
    forall|i: int, j: int| 0 <= i < j < names.len() ==> lex_lt(#[trigger] names[i], #[trigger] names[j])
}

pub struct File {
    name: String,
    content: String,
}

pub struct Directory {
    name: String,
    files: Vec<File>,
    subdirectories: Vec<Directory>,
}

spec fn file_names(files: Seq<File>) -> Seq<Seq<char>> {
    Seq::new(files.len(), |i: int| files[i].name@)
}

spec fn dir_names(dirs: Seq<Directory>) -> Seq<Seq<char>> {
    Seq::new(dirs.len(), |i: int| dirs[i].name@)
}

spec fn files_model(files: Seq<File>, n: nat) -> Map<Seq<char>, Seq<char>>
    decreases n,
{
    if n == 0 || n > files.len() {
        Map::empty()
    } else {
        files_model(files, (n - 1) as nat).insert(files[n - 1].name@, files[n - 1].content@)
    }
}

spec fn dirs_model(dirs: Seq<Directory>, n: nat) -> Map<Seq<char>, DirModel>
    decreases dirs, n,
{
    if n == 0 || n > dirs.len() {
        Map::empty()
    } else {
        dirs_model(dirs, (n - 1) as nat).insert(dirs[n - 1].name@, dirs[n - 1].model())
    }
}

impl Directory {
    /// What this directory holds.
    pub closed spec fn model(&self) -> DirModel
        decreases self,
    {
        DirModel {
            files: files_model(self.files@, self.files@.len()),
            dirs: dirs_model(self.subdirectories@, self.subdirectories@.len()),
        }
    }

    /// Files and subdirectories are each kept in ascending order of their
    /// names, here and in every directory below.
    pub closed spec fn wf(&self) -> bool
        decreases self,
    {
        &&& ascending(file_names(self.files@))
        &&& ascending(dir_names(self.subdirectories@))
        &&& forall|i: int|
            0 <= i < self.subdirectories@.len() ==> (#[trigger] self.subdirectories@[i]).wf()
    }
}


/// No name occurs twice.
spec fn distinct(keys: Seq<Seq<char>>) -> bool {
    forall|i: int, j: int| 0 <= i < keys.len() && 0 <= j < keys.len() && i != j ==> keys[i] != keys[j]
}

/// `m` is the map that sends each `keys[i]` to `vals[i]` and holds nothing
/// else.
spec fn keyed<V>(keys: Seq<Seq<char>>, vals: Seq<V>, m: Map<Seq<char>, V>) -> bool {
    &&& keys.len() == vals.len()
    &&& forall|k: Seq<char>| #[trigger] m.contains_key(k) <==> keys.contains(k)
    &&& forall|i: int| 0 <= i < keys.len() ==> m[#[trigger] keys[i]] == vals[i]
}

proof fn lemma_ascending_distinct(keys: Seq<Seq<char>>)
    requires
        ascending(keys),
    ensures
        distinct(keys),
{
    assert forall|i: int, j: int|
        0 <= i < keys.len() && 0 <= j < keys.len() && i != j implies keys[i] != keys[j] by {
        if i < j {
            lemma_lex_asymmetric(keys[i], keys[j]);
        } else {
            lemma_lex_asymmetric(keys[j], keys[i]);
        }
    }
}

proof fn lemma_keyed_same<V>(keys: Seq<Seq<char>>, vals: Seq<V>, a: Map<Seq<char>, V>, b: Map<Seq<char>, V>)
    requires
        keyed(keys, vals, a),
        keyed(keys, vals, b),
    ensures
        a == b,
{
    assert forall|k: Seq<char>| a.contains_key(k) implies #[trigger] a[k] == b[k] by {
        let i = choose|i: int| 0 <= i < keys.len() && keys[i] == k;
        assert(a[keys[i]] == vals[i]);
        assert(b[keys[i]] == vals[i]);
    }
    assert(a =~= b);
}

proof fn lemma_keyed_insert<V>(
    keys: Seq<Seq<char>>,
    vals: Seq<V>,
    m: Map<Seq<char>, V>,
    p: int,
    k: Seq<char>,
    v: V,
)
    requires
        keyed(keys, vals, m),
        0 <= p <= keys.len(),
        !keys.contains(k),
    ensures
        keyed(keys.insert(p, k), vals.insert(p, v), m.insert(k, v)),
{
    let keys2 = keys.insert(p, k);
    let vals2 = vals.insert(p, v);
    let m2 = m.insert(k, v);
    assert forall|x: Seq<char>| #[trigger] m2.contains_key(x) <==> keys2.contains(x) by {
        if m2.contains_key(x) {
            if x == k {
                assert(keys2[p] == x);
            } else {
                let i = choose|i: int| 0 <= i < keys.len() && keys[i] == x;
                if i < p {
                    assert(keys2[i] == x);
                } else {
                    assert(keys2[i + 1] == x);
                }
            }
        }
        if keys2.contains(x) {
            let i = choose|i: int| 0 <= i < keys2.len() && keys2[i] == x;
            if i < p {
                assert(keys[i] == x);
            } else if i > p {
                assert(keys[i - 1] == x);
            }
        }
    }
    assert forall|i: int| 0 <= i < keys2.len() implies m2[#[trigger] keys2[i]] == vals2[i] by {
        if i < p {
            assert(keys2[i] == keys[i]);
        } else if i > p {
            assert(keys2[i] == keys[i - 1]);
        }
    }
}

proof fn lemma_keyed_update<V>(keys: Seq<Seq<char>>, vals: Seq<V>, m: Map<Seq<char>, V>, p: int, v: V)
    requires
        keyed(keys, vals, m),
        distinct(keys),
        0 <= p < keys.len(),
    ensures
        keyed(keys, vals.update(p, v), m.insert(keys[p], v)),
{
    let vals2 = vals.update(p, v);
    let m2 = m.insert(keys[p], v);
    assert forall|x: Seq<char>| #[trigger] m2.contains_key(x) <==> keys.contains(x) by {
        if x == keys[p] {
            assert(keys.contains(x));
        }
    }
    assert forall|i: int| 0 <= i < keys.len() implies m2[#[trigger] keys[i]] == vals2[i] by {
        if i != p {
            assert(keys[i] != keys[p]);
        }
    }
}

proof fn lemma_keyed_remove<V>(keys: Seq<Seq<char>>, vals: Seq<V>, m: Map<Seq<char>, V>, p: int)
    requires
        keyed(keys, vals, m),
        distinct(keys),
        0 <= p < keys.len(),
    ensures
        keyed(keys.remove(p), vals.remove(p), m.remove(keys[p])),
{
    let keys2 = keys.remove(p);
    let vals2 = vals.remove(p);
    let m2 = m.remove(keys[p]);
    assert forall|x: Seq<char>| #[trigger] m2.contains_key(x) <==> keys2.contains(x) by {
        if m2.contains_key(x) {
            let i = choose|i: int| 0 <= i < keys.len() && keys[i] == x;
            if i < p {
                assert(keys2[i] == x);
            } else {
                assert(keys2[i - 1] == x);
            }
        }
        if keys2.contains(x) {
            let i = choose|i: int| 0 <= i < keys2.len() && keys2[i] == x;
            if i < p {
                assert(keys[i] == x);
            } else {
                assert(keys[i + 1] == x);
                assert(keys[i + 1] != keys[p]);
            }
        }
    }
    assert forall|i: int| 0 <= i < keys2.len() implies m2[#[trigger] keys2[i]] == vals2[i] by {
        if i < p {
            assert(keys2[i] == keys[i]);
            assert(keys[i] != keys[p]);
        } else {
            assert(keys2[i] == keys[i + 1]);
            assert(keys[i + 1] != keys[p]);
        }
    }
}

spec fn file_contents(files: Seq<File>) -> Seq<Seq<char>> {
    Seq::new(files.len(), |i: int| files[i].content@)
}

spec fn dir_models(dirs: Seq<Directory>) -> Seq<DirModel> {
    Seq::new(dirs.len(), |i: int| dirs[i].model())
}

proof fn lemma_files_keyed(files: Seq<File>, n: nat)
    requires
        distinct(file_names(files)),
        n <= files.len(),
    ensures
        keyed(
            file_names(files).take(n as int),
            file_contents(files).take(n as int),
            files_model(files, n),
        ),
    decreases n,
{
    let keys = file_names(files).take(n as int);
    let vals = file_contents(files).take(n as int);
    let m = files_model(files, n);
    if n > 0 {
        lemma_files_keyed(files, (n - 1) as nat);
        let keys0 = file_names(files).take(n - 1);
        let m0 = files_model(files, (n - 1) as nat);
        assert forall|x: Seq<char>| #[trigger] m.contains_key(x) <==> keys.contains(x) by {
            if m.contains_key(x) {
                if x == files[n - 1].name@ {
                    assert(keys[n - 1] == x);
                } else {
                    let i = choose|i: int| 0 <= i < keys0.len() && keys0[i] == x;
                    assert(keys[i] == x);
                }
            }
            if keys.contains(x) {
                let i = choose|i: int| 0 <= i < keys.len() && keys[i] == x;
                if i < n - 1 {
                    assert(keys0[i] == x);
                }
            }
        }
        assert forall|i: int| 0 <= i < keys.len() implies m[#[trigger] keys[i]] == vals[i] by {
            if i < n - 1 {
                assert(keys0[i] == keys[i]);
                assert(file_names(files)[i] != file_names(files)[n - 1]);
            }
        }
    }
}

proof fn lemma_dirs_keyed(dirs: Seq<Directory>, n: nat)
    requires
        distinct(dir_names(dirs)),
        n <= dirs.len(),
    ensures
        keyed(dir_names(dirs).take(n as int), dir_models(dirs).take(n as int), dirs_model(dirs, n)),
    decreases n,
{
    let keys = dir_names(dirs).take(n as int);
    let vals = dir_models(dirs).take(n as int);
    let m = dirs_model(dirs, n);
    if n > 0 {
        lemma_dirs_keyed(dirs, (n - 1) as nat);
        let keys0 = dir_names(dirs).take(n - 1);
        let m0 = dirs_model(dirs, (n - 1) as nat);
        assert forall|x: Seq<char>| #[trigger] m.contains_key(x) <==> keys.contains(x) by {
            if m.contains_key(x) {
                if x == dirs[n - 1].name@ {
                    assert(keys[n - 1] == x);
                } else {
                    let i = choose|i: int| 0 <= i < keys0.len() && keys0[i] == x;
                    assert(keys[i] == x);
                }
            }
            if keys.contains(x) {
                let i = choose|i: int| 0 <= i < keys.len() && keys[i] == x;
                if i < n - 1 {
                    assert(keys0[i] == x);
                }
            }
        }
        assert forall|i: int| 0 <= i < keys.len() implies m[#[trigger] keys[i]] == vals[i] by {
            if i < n - 1 {
                assert(keys0[i] == keys[i]);
                assert(dir_names(dirs)[i] != dir_names(dirs)[n - 1]);
            }
        }
    }
}

/// The files of a well-ordered list, as the map from name to content.
proof fn lemma_files_map(files: Seq<File>)
    requires
        ascending(file_names(files)),
    ensures
        keyed(file_names(files), file_contents(files), files_model(files, files.len())),
{
    lemma_ascending_distinct(file_names(files));
    lemma_files_keyed(files, files.len());
    assert(file_names(files).take(files.len() as int) =~= file_names(files));
    assert(file_contents(files).take(files.len() as int) =~= file_contents(files));
}

/// The subdirectories of a well-ordered list, as the map from name to
/// what each holds.
proof fn lemma_dirs_map(dirs: Seq<Directory>)
    requires
        ascending(dir_names(dirs)),
    ensures
        keyed(dir_names(dirs), dir_models(dirs), dirs_model(dirs, dirs.len())),
{
    lemma_ascending_distinct(dir_names(dirs));
    lemma_dirs_keyed(dirs, dirs.len());
    assert(dir_names(dirs).take(dirs.len() as int) =~= dir_names(dirs));
    assert(dir_models(dirs).take(dirs.len() as int) =~= dir_models(dirs));
}


proof fn lemma_ascending_insert(keys: Seq<Seq<char>>, p: int, k: Seq<char>)
    requires
        ascending(keys),
        0 <= p <= keys.len(),
        forall|j: int| 0 <= j < p ==> lex_lt(#[trigger] keys[j], k),
        forall|j: int| p <= j < keys.len() ==> lex_lt(k, #[trigger] keys[j]),
    ensures
        ascending(keys.insert(p, k)),
{
    let keys2 = keys.insert(p, k);
    assert forall|i: int, j: int| 0 <= i < j < keys2.len() implies lex_lt(
        #[trigger] keys2[i],
        #[trigger] keys2[j],
    ) by {
        let a = if i < p { i } else { i - 1 };
        let b = if j < p { j } else { j - 1 };
        if i != p && j != p {
            assert(keys2[i] == keys[a] && keys2[j] == keys[b]);
        } else if i == p {
            assert(keys2[j] == keys[b]);
        } else {
            assert(keys2[i] == keys[a]);
        }
    }
}

proof fn lemma_ascending_remove(keys: Seq<Seq<char>>, p: int)
    requires
        ascending(keys),
        0 <= p < keys.len(),
    ensures
        ascending(keys.remove(p)),
{
    let keys2 = keys.remove(p);
    assert forall|i: int, j: int| 0 <= i < j < keys2.len() implies lex_lt(
        #[trigger] keys2[i],
        #[trigger] keys2[j],
    ) by {
        let a = if i < p { i } else { i + 1 };
        let b = if j < p { j } else { j + 1 };
        assert(keys2[i] == keys[a] && keys2[j] == keys[b]);
    }
}

/// Something that is filed under a name.
pub trait Named {
    spec fn label(&self) -> Seq<char>;

    fn label_str(&self) -> (r: &str)
        ensures
            r@ == self.label(),
    ;
}

spec fn labels<E: Named>(entries: Seq<E>) -> Seq<Seq<char>> {
    Seq::new(entries.len(), |i: int| entries[i].label())
}

/// Where `name` stands, or would stand, in a list kept in ascending order,
/// and whether it is there.
fn position<E: Named>(entries: &Vec<E>, name: &str) -> (r: (usize, bool))
    requires
        ascending(labels(entries@)),
    ensures
        r.0 <= entries.len(),
        forall|j: int| 0 <= j < r.0 ==> lex_lt(#[trigger] labels(entries@)[j], name@),
        r.1 ==> r.0 < entries.len() && labels(entries@)[r.0 as int] == name@,
        !r.1 ==> forall|j: int|
            r.0 <= j < entries.len() ==> lex_lt(name@, #[trigger] labels(entries@)[j]),
        r.1 == labels(entries@).contains(name@),
{
    let ghost keys = labels(entries@);
    let mut lo: usize = 0;
    let mut hi: usize = entries.len();
    while lo < hi
        invariant
            lo <= hi <= entries.len(),
            keys == labels(entries@),
            ascending(keys),
            forall|j: int| 0 <= j < lo ==> lex_lt(#[trigger] keys[j], name@),
            forall|j: int| hi <= j < entries.len() ==> !lex_lt(#[trigger] keys[j], name@),
        decreases hi - lo,
    {
        let mid = lo + (hi - lo) / 2;
        assert(keys[mid as int] == entries@[mid as int].label());
        if str_less(entries[mid].label_str(), name) {
            proof {
                assert forall|j: int| 0 <= j < mid + 1 implies lex_lt(#[trigger] keys[j], name@) by {
                    if j < mid {
                        lemma_lex_transitive(keys[j], keys[mid as int], name@);
                    }
                }
            }
            lo = mid + 1;
        } else {
            proof {
                assert forall|j: int| mid <= j < entries.len() implies !lex_lt(
                    #[trigger] keys[j],
                    name@,
                ) by {
                    if j > mid && lex_lt(keys[j], name@) {
                        lemma_lex_transitive(keys[mid as int], keys[j], name@);
                    }
                }
            }
            hi = mid;
        }
    }
    let i = lo;
    let found = i < entries.len() && str_equal(entries[i].label_str(), name);
    proof {
        if i < entries.len() {
            assert(keys[i as int] == entries@[i as int].label());
        }
        if !found {
            assert forall|j: int| i <= j < entries.len() implies lex_lt(name@, #[trigger] keys[j]) by {
                lemma_lex_total(keys[i as int], name@);
                if j > i {
                    lemma_lex_transitive(name@, keys[i as int], keys[j]);
                }
            }
        }
        if keys.contains(name@) {
            let j = choose|j: int| 0 <= j < keys.len() && keys[j] == name@;
            if j < i {
                lemma_lex_asymmetric(keys[j], name@);
            } else if !found {
                lemma_lex_asymmetric(name@, keys[j]);
            }
        }
    }
    (i, found)
}

impl Named for File {
    closed spec fn label(&self) -> Seq<char> {
        self.name@
    }

    fn label_str(&self) -> (r: &str) {
        self.name.as_str()
    }
}

impl Named for Directory {
    closed spec fn label(&self) -> Seq<char> {
        self.name@
    }

    fn label_str(&self) -> (r: &str) {
        self.name.as_str()
    }
}

impl File {
    pub closed spec fn name_view(&self) -> Seq<char> {
        self.name@
    }

    pub closed spec fn content_view(&self) -> Seq<char> {
        self.content@
    }

    pub fn name(&self) -> (r: &str)
        ensures
            r@ == self.name_view(),
    {
        self.name.as_str()
    }

    pub fn content(&self) -> (r: &str)
        ensures
            r@ == self.content_view(),
    {
        self.content.as_str()
    }
}

/// One line of a directory listing.
pub struct DirEntry {
    pub name: String,
    pub is_directory: bool,
}

impl DeepView for DirEntry {
    type V = (Seq<char>, bool);

    open spec fn deep_view(&self) -> (Seq<char>, bool) {
        (self.name@, self.is_directory)
    }
}

impl Directory {
    pub closed spec fn name_view(&self) -> Seq<char> {
        self.name@
    }

    /// An empty directory called `name`.
    pub fn new(name: &str) -> (d: Directory)
        ensures
            d.wf(),
            d.name_view() == name@,
            d.model() == DirModel::empty(),
    {
        let d = Directory {
            name: String::from_str(name),
            files: Vec::new(),
            subdirectories: Vec::new(),
        };
        proof {
            assert(d.model().files =~= Map::empty());
            assert(d.model().dirs =~= Map::empty());
        }
        d
    }

    pub fn name(&self) -> (r: &str)
        ensures
            r@ == self.name_view(),
    {
        self.name.as_str()
    }

    /// The content of the file `name`, if this directory has it.
    pub fn file_content(&self, name: &str) -> (r: Option<&str>)
        requires
            self.wf(),
        ensures
            match r {
                Some(c) => self.model().files.contains_key(name@) && self.model().files[name@]
                    == c@,
                None => !self.model().files.contains_key(name@),
            },
    {
        proof {
            assert(labels(self.files@) =~= file_names(self.files@));
            lemma_files_map(self.files@);
        }
        let (p, found) = position(&self.files, name);
        if found {
            proof {
                assert(file_names(self.files@)[p as int] == name@);
                assert(file_contents(self.files@)[p as int] == self.files@[p as int].content@);
            }
            Some(self.files[p].content.as_str())
        } else {
            None
        }
    }

    /// The index of the subdirectory `name`, if this directory has it.
    fn child_index(&self, name: &str) -> (r: Option<usize>)
        requires
            self.wf(),
        ensures
            match r {
                Some(i) => i < self.subdirectories@.len() && self.subdirectories@[i as int].name@
                    == name@ && self.model().dirs.contains_key(name@) && self.model().dirs[name@]
                    == self.subdirectories@[i as int].model(),
                None => !self.model().dirs.contains_key(name@),
            },
    {
        proof {
            assert(labels(self.subdirectories@) =~= dir_names(self.subdirectories@));
            lemma_dirs_map(self.subdirectories@);
        }
        let (p, found) = position(&self.subdirectories, name);
        if found {
            proof {
                assert(dir_names(self.subdirectories@)[p as int] == name@);
                assert(dir_models(self.subdirectories@)[p as int]
                    == self.subdirectories@[p as int].model());
            }
            Some(p)
        } else {
            None
        }
    }

    /// Whether this directory has a subdirectory `name`.
    pub fn has_subdirectory(&self, name: &str) -> (r: bool)
        requires
            self.wf(),
        ensures
            r == self.model().dirs.contains_key(name@),
    {
        self.child_index(name).is_some()
    }

    /// Writes the file `name`, replacing one of that name.
    fn put_file(&mut self, name: &str, content: &str)
        requires
            old(self).wf(),
        ensures
            final(self).wf(),
            final(self).name@ == old(self).name@,
            final(self).model() == old(self).model().with_file(name@, content@),
    {
        let ghost before = self.files@;
        proof {
            assert(labels(self.files@) =~= file_names(self.files@));
            lemma_files_map(before);
            lemma_ascending_distinct(file_names(before));
        }
        let (p, found) = position(&self.files, name);
        let file = File { name: String::from_str(name), content: String::from_str(content) };
        if found {
            self.files[p] = file;
            proof {
                assert(file_names(self.files@) =~= file_names(before));
                assert(file_contents(self.files@) =~= file_contents(before).update(
                    p as int,
                    content@,
                ));
                lemma_keyed_update(
                    file_names(before),
                    file_contents(before),
                    files_model(before, before.len()),
                    p as int,
                    content@,
                );
            }
        } else {
            self.files.insert(p, file);
            proof {
                assert(file_names(self.files@) =~= file_names(before).insert(p as int, name@));
                assert(file_contents(self.files@) =~= file_contents(before).insert(
                    p as int,
                    content@,
                ));
                lemma_ascending_insert(file_names(before), p as int, name@);
                lemma_keyed_insert(
                    file_names(before),
                    file_contents(before),
                    files_model(before, before.len()),
                    p as int,
                    name@,
                    content@,
                );
            }
        }
        proof {
            lemma_files_map(self.files@);
            lemma_keyed_same(
                file_names(self.files@),
                file_contents(self.files@),
                files_model(self.files@, self.files@.len()),
                files_model(before, before.len()).insert(name@, content@),
            );
        }
    }

    /// Makes `name` an empty subdirectory, replacing one of that name.
    fn put_dir(&mut self, name: &str)
        requires
            old(self).wf(),
        ensures
            final(self).wf(),
            final(self).name@ == old(self).name@,
            final(self).model() == old(self).model().with_dir(name@),
    {
        let ghost before = self.subdirectories@;
        proof {
            assert(labels(self.subdirectories@) =~= dir_names(self.subdirectories@));
            lemma_dirs_map(before);
            lemma_ascending_distinct(dir_names(before));
        }
        let (p, found) = position(&self.subdirectories, name);
        let dir = Directory::new(name);
        if found {
            self.subdirectories[p] = dir;
            proof {
                assert(dir_names(self.subdirectories@) =~= dir_names(before));
                assert(dir_models(self.subdirectories@) =~= dir_models(before).update(
                    p as int,
                    DirModel::empty(),
                ));
                lemma_keyed_update(
                    dir_names(before),
                    dir_models(before),
                    dirs_model(before, before.len()),
                    p as int,
                    DirModel::empty(),
                );
            }
        } else {
            self.subdirectories.insert(p, dir);
            proof {
                assert(dir_names(self.subdirectories@) =~= dir_names(before).insert(
                    p as int,
                    name@,
                ));
                assert(dir_models(self.subdirectories@) =~= dir_models(before).insert(
                    p as int,
                    DirModel::empty(),
                ));
                lemma_ascending_insert(dir_names(before), p as int, name@);
                lemma_keyed_insert(
                    dir_names(before),
                    dir_models(before),
                    dirs_model(before, before.len()),
                    p as int,
                    name@,
                    DirModel::empty(),
                );
            }
        }
        proof {
            lemma_dirs_map(self.subdirectories@);
            lemma_keyed_same(
                dir_names(self.subdirectories@),
                dir_models(self.subdirectories@),
                dirs_model(self.subdirectories@, self.subdirectories@.len()),
                dirs_model(before, before.len()).insert(name@, DirModel::empty()),
            );
        }
    }

    /// Removes the file `name`, or else the subdirectory `name`; says
    /// whether there was either.
    fn remove_entry(&mut self, name: &str) -> (removed: bool)
        requires
            old(self).wf(),
        ensures
            final(self).wf(),
            final(self).name@ == old(self).name@,
            removed == old(self).model().has(name@),
            final(self).model() == if removed {
                old(self).model().without(name@)
            } else {
                old(self).model()
            },
    {
        let ghost files_before = self.files@;
        let ghost dirs_before = self.subdirectories@;
        proof {
            assert(labels(self.files@) =~= file_names(self.files@));
            assert(labels(self.subdirectories@) =~= dir_names(self.subdirectories@));
            lemma_files_map(files_before);
            lemma_dirs_map(dirs_before);
            lemma_ascending_distinct(file_names(files_before));
            lemma_ascending_distinct(dir_names(dirs_before));
        }
        let (p, found) = position(&self.files, name);
        if found {
            self.files.remove(p);
            proof {
                assert(file_names(self.files@) =~= file_names(files_before).remove(p as int));
                assert(file_contents(self.files@) =~= file_contents(files_before).remove(
                    p as int,
                ));
                lemma_ascending_remove(file_names(files_before), p as int);
                lemma_keyed_remove(
                    file_names(files_before),
                    file_contents(files_before),
                    files_model(files_before, files_before.len()),
                    p as int,
                );
                lemma_files_map(self.files@);
                lemma_keyed_same(
                    file_names(self.files@),
                    file_contents(self.files@),
                    files_model(self.files@, self.files@.len()),
                    files_model(files_before, files_before.len()).remove(name@),
                );
            }
            return true;
        }
        let (q, found_dir) = position(&self.subdirectories, name);
        if found_dir {
            self.subdirectories.remove(q);
            proof {
                assert(dir_names(self.subdirectories@) =~= dir_names(dirs_before).remove(
                    q as int,
                ));
                assert(dir_models(self.subdirectories@) =~= dir_models(dirs_before).remove(
                    q as int,
                ));
                lemma_ascending_remove(dir_names(dirs_before), q as int);
                lemma_keyed_remove(
                    dir_names(dirs_before),
                    dir_models(dirs_before),
                    dirs_model(dirs_before, dirs_before.len()),
                    q as int,
                );
                lemma_dirs_map(self.subdirectories@);
                lemma_keyed_same(
                    dir_names(self.subdirectories@),
                    dir_models(self.subdirectories@),
                    dirs_model(self.subdirectories@, self.subdirectories@.len()),
                    dirs_model(dirs_before, dirs_before.len()).remove(name@),
                );
            }
            return true;
        }
        false
    }
}


/// Why an operation on the file tree did nothing.
#[derive(Clone, Copy, Debug, PartialEq, Eq, Structural)]
pub enum FsError {
    /// The current path leads nowhere, or nothing is called by the name.
    NotFound,
    /// The current directory has no subdirectory of that name.
    DirectoryNotFound,
}

/// A change to one directory.
enum Change<'a> {
    PutFile(&'a str, &'a str),
    PutDir(&'a str),
    Remove(&'a str),
}

impl<'a> Change<'a> {
    spec fn possible(self, d: DirModel) -> bool {
        match self {
            Change::Remove(name) => d.has(name@),
            _ => true,
        }
    }

    spec fn applied(self, d: DirModel) -> DirModel {
        match self {
            Change::PutFile(name, content) => d.with_file(name@, content@),
            Change::PutDir(name) => d.with_dir(name@),
            Change::Remove(name) => d.without(name@),
        }
    }
}

impl Directory {
    /// Makes the change in the directory that `path[depth..]` leads to
    /// from here.
    fn change_at(&mut self, path: &Vec<String>, depth: usize, change: &Change) -> (r: Result<
        (),
        FsError,
    >)
        requires
            old(self).wf(),
            depth <= path.len(),
        ensures
            final(self).wf(),
            final(self).name@ == old(self).name@,
            match old(self).model().resolve(path.deep_view().skip(depth as int)) {
                Some(d) if change.possible(d) => r is Ok && final(self).model() == old(
                    self,
                ).model().replace_at(path.deep_view().skip(depth as int), change.applied(d)),
                _ => r == Err::<(), FsError>(FsError::NotFound) && final(self).model() == old(
                    self,
                ).model(),
            },
        decreases path.len() - depth,
    {
        let ghost rest = path.deep_view().skip(depth as int);
        if depth == path.len() {
            match change {
                Change::PutFile(name, content) => {
                    self.put_file(name, content);
                    Ok(())
                },
                Change::PutDir(name) => {
                    self.put_dir(name);
                    Ok(())
                },
                Change::Remove(name) => {
                    if self.remove_entry(name) {
                        Ok(())
                    } else {
                        Err(FsError::NotFound)
                    }
                },
            }
        } else {
            proof {
                assert(rest[0] == path@[depth as int]@);
                assert(rest.drop_first() =~= path.deep_view().skip(depth + 1));
            }
            match self.child_index(path[depth].as_str()) {
                None => Err(FsError::NotFound),
                Some(idx) => {
                    let ghost before = self.subdirectories@;
                    let ghost model_before = self.model();
                    proof {
                        lemma_dirs_map(before);
                        lemma_ascending_distinct(dir_names(before));
                    }
                    let child = &mut self.subdirectories[idx];
                    let r = child.change_at(path, depth + 1, change);
                    proof {
                        let after = self.subdirectories@;
                        let new_child = after[idx as int];
                        assert(after =~= before.update(idx as int, new_child));
                        assert(dir_names(after) =~= dir_names(before));
                        assert(dir_models(after) =~= dir_models(before).update(
                            idx as int,
                            new_child.model(),
                        ));
                        lemma_keyed_update(
                            dir_names(before),
                            dir_models(before),
                            dirs_model(before, before.len()),
                            idx as int,
                            new_child.model(),
                        );
                        lemma_dirs_map(after);
                        lemma_keyed_same(
                            dir_names(after),
                            dir_models(after),
                            dirs_model(after, after.len()),
                            dirs_model(before, before.len()).insert(rest[0], new_child.model()),
                        );
                        if r is Err {
                            assert(self.model().dirs =~= model_before.dirs);
                        }
                    }
                    r
                },
            }
        }
    }
}


/// The path segment that names the parent directory.
pub open spec fn parent_segment() -> Seq<char> {
    seq!['.', '.']
}

/// The file tree as mathematics: what the root holds, and the segments of
/// the current path.
pub struct FileSystemModel {
    pub root: DirModel,
    pub path: Seq<Seq<char>>,
}

impl FileSystemModel {
    /// The current directory, if the current path leads to one.
    pub open spec fn current(self) -> Option<DirModel> {
        self.root.resolve(self.path)
    }

    /// The same tree and path with `d` as the current directory.
    pub open spec fn with_current(self, d: DirModel) -> FileSystemModel {
        FileSystemModel { root: self.root.replace_at(self.path, d), path: self.path }
    }

    /// The tree after `cd segment`.
    pub open spec fn entered(self, segment: Seq<char>) -> FileSystemModel {
        if segment == parent_segment() {
            if self.path.len() == 0 {
                self
            } else {
                FileSystemModel { root: self.root, path: self.path.drop_last() }
            }
        } else {
            FileSystemModel { root: self.root, path: self.path.push(segment) }
        }
    }

    /// Whether `cd segment` has somewhere to go.
    pub open spec fn can_enter(self, segment: Seq<char>) -> bool {
        segment == parent_segment() || match self.current() {
            Some(d) => d.dirs.contains_key(segment),
            None => false,
        }
    }
}

/// One operation on a directory.
pub enum DirOp {
    /// Make an empty subdirectory of this name, in place of any there is.
    CreateDirectory(Seq<char>),
    /// Write the file of this name with this content, in place of any
    /// there is.
    CreateFile(Seq<char>, Seq<char>),
    /// Remove the file of this name, or else the subdirectory.
    Delete(Seq<char>),
}

impl DirOp {
    /// Whether the operation writes the file `name`.
    pub open spec fn writes(self, name: Seq<char>) -> bool {
        match self {
            DirOp::CreateFile(n, _) => n == name,
            _ => false,
        }
    }
}

/// The directory after one operation. Deleting a name that is not there
/// changes nothing.
pub open spec fn step(d: DirModel, op: DirOp) -> DirModel {
    match op {
        DirOp::CreateDirectory(n) => d.with_dir(n),
        DirOp::CreateFile(n, content) => d.with_file(n, content),
        DirOp::Delete(n) => if d.has(n) {
            d.without(n)
        } else {
            d
        },
    }
}

impl FileSystemModel {
    /// The tree after one operation on the current directory. Where the
    /// current path leads nowhere, or a name to delete is not there, the
    /// tree stays as it is.
    pub open spec fn applied(self, op: DirOp) -> FileSystemModel {
        match self.current() {
            Some(d) => if op matches DirOp::Delete(n) && !d.has(n) {
                self
            } else {
                self.with_current(step(d, op))
            },
            None => self,
        }
    }

    /// Whether the operation succeeds: the current path leads to a
    /// directory, and a name to delete is there.
    pub open spec fn admits(self, op: DirOp) -> bool {
        match self.current() {
            Some(d) => op matches DirOp::Delete(n) ==> d.has(n),
            None => false,
        }
    }
}

/// Whether `entries` lists `d`: first its subdirectories, marked as such,
/// then its files, each group complete and in ascending order of name. The
/// first `k` entries are the subdirectories.
pub open spec fn lists(d: DirModel, entries: Seq<(Seq<char>, bool)>, k: int) -> bool {
    let names = Seq::new(entries.len(), |i: int| entries[i].0);
    &&& 0 <= k <= entries.len()
    &&& forall|i: int| 0 <= i < entries.len() ==> (#[trigger] entries[i]).1 == (i < k)
    &&& ascending(names.take(k))
    &&& ascending(names.skip(k))
    &&& forall|n: Seq<char>| #[trigger] d.dirs.contains_key(n) <==> names.take(k).contains(n)
    &&& forall|n: Seq<char>| #[trigger] d.files.contains_key(n) <==> names.skip(k).contains(n)
}

/// Whether `entries` is the listing of `d`.
pub open spec fn is_listing(d: DirModel, entries: Seq<(Seq<char>, bool)>) -> bool {
    exists|k: int| lists(d, entries, k)
}

/// The in-memory file tree with its current path.
pub struct FileSystem {
    root: Directory,
    current_path: Vec<String>,
}

impl View for FileSystem {
    type V = FileSystemModel;

    closed spec fn view(&self) -> FileSystemModel {
        FileSystemModel { root: self.root.model(), path: self.current_path.deep_view() }
    }
}

impl FileSystem {
    /// Every directory of the tree keeps its entries in order.
    pub closed spec fn wf(&self) -> bool {
        self.root.wf()
    }

    /// An empty root, which is also the current directory.
    pub fn new() -> (fs: FileSystem)
        ensures
            fs.wf(),
            fs@.root == DirModel::empty(),
            fs@.path == Seq::<Seq<char>>::empty(),
    {
        let fs = FileSystem { root: Directory::new("root"), current_path: Vec::new() };
        proof {
            assert(fs.current_path.deep_view() =~= Seq::<Seq<char>>::empty());
        }
        fs
    }

    /// The segments of the current path, from the root down.
    pub fn current_path(&self) -> (r: &Vec<String>)
        ensures
            r.deep_view() == self@.path,
    {
        &self.current_path
    }

    /// Walks the current path from the root.
    pub fn resolve_current(&self) -> (r: Result<&Directory, FsError>)
        requires
            self.wf(),
        ensures
            match r {
                Ok(d) => d.wf() && self@.current() == Some(d.model()),
                Err(e) => e == FsError::NotFound && self@.current() is None,
            },
    {
        let mut dir = &self.root;
        let mut depth: usize = 0;
        let ghost path = self.current_path.deep_view();
        proof {
            assert(path.skip(0) =~= path);
        }
        while depth < self.current_path.len()
            invariant
                depth <= self.current_path.len(),
                path == self.current_path.deep_view(),
                dir.wf(),
                self@.current() == dir.model().resolve(path.skip(depth as int)),
            decreases self.current_path.len() - depth,
        {
            proof {
                let rest = path.skip(depth as int);
                assert(rest[0] == self.current_path@[depth as int]@);
                assert(rest.drop_first() =~= path.skip(depth + 1));
            }
            match dir.child_index(self.current_path[depth].as_str()) {
                None => {
                    return Err(FsError::NotFound);
                },
                Some(idx) => {
                    dir = &dir.subdirectories[idx];
                },
            }
            depth += 1;
        }
        Ok(dir)
    }

    /// Writes a file into the current directory, replacing one of that
    /// name.
    pub fn create_file(&mut self, name: &str, content: &str) -> (r: Result<(), FsError>)
        requires
            old(self).wf(),
        ensures
            final(self).wf(),
            match old(self)@.current() {
                Some(d) => r is Ok && final(self)@ == old(self)@.with_current(
                    d.with_file(name@, content@),
                ),
                None => r == Err::<(), FsError>(FsError::NotFound) && final(self)@ == old(self)@,
            },
            (r is Ok) == old(self)@.admits(DirOp::CreateFile(name@, content@)),
            final(self)@ == old(self)@.applied(DirOp::CreateFile(name@, content@)),
            (final(self)@.current() is Some) == (old(self)@.current() is Some),
    {
        proof {
            assert(self.current_path.deep_view().skip(0) =~= self.current_path.deep_view());
            if self@.current() is Some {
                lemma_current_stays(self@, self@.current()->0.with_file(name@, content@), name@);
            }
        }
        self.root.change_at(&self.current_path, 0, &Change::PutFile(name, content))
    }

    /// Makes an empty subdirectory of the current directory, replacing
    /// one of that name.
    pub fn create_directory(&mut self, name: &str) -> (r: Result<(), FsError>)
        requires
            old(self).wf(),
        ensures
            final(self).wf(),
            match old(self)@.current() {
                Some(d) => r is Ok && final(self)@ == old(self)@.with_current(d.with_dir(name@)),
                None => r == Err::<(), FsError>(FsError::NotFound) && final(self)@ == old(self)@,
            },
            (r is Ok) == old(self)@.admits(DirOp::CreateDirectory(name@)),
            final(self)@ == old(self)@.applied(DirOp::CreateDirectory(name@)),
            (final(self)@.current() is Some) == (old(self)@.current() is Some),
    {
        proof {
            assert(self.current_path.deep_view().skip(0) =~= self.current_path.deep_view());
            if self@.current() is Some {
                lemma_current_stays(self@, self@.current()->0.with_dir(name@), name@);
            }
        }
        self.root.change_at(&self.current_path, 0, &Change::PutDir(name))
    }

    /// Removes the file `name` from the current directory, or else its
    /// subdirectory `name` with all that it holds.
    pub fn delete(&mut self, name: &str) -> (r: Result<(), FsError>)
        requires
            old(self).wf(),
        ensures
            final(self).wf(),
            match old(self)@.current() {
                Some(d) if d.has(name@) => r is Ok && final(self)@ == old(self)@.with_current(
                    d.without(name@),
                ),
                _ => r == Err::<(), FsError>(FsError::NotFound) && final(self)@ == old(self)@,
            },
            (r is Ok) == old(self)@.admits(DirOp::Delete(name@)),
            final(self)@ == old(self)@.applied(DirOp::Delete(name@)),
            (final(self)@.current() is Some) == (old(self)@.current() is Some),
    {
        proof {
            assert(self.current_path.deep_view().skip(0) =~= self.current_path.deep_view());
            if self@.current() is Some {
                lemma_current_stays(self@, self@.current()->0.without(name@), name@);
            }
        }
        self.root.change_at(&self.current_path, 0, &Change::Remove(name))
    }

    /// Moves the current path: `..` drops its last segment, and does
    /// nothing at the root; any other segment is appended if the current
    /// directory has a subdirectory of that name.
    pub fn change_directory(&mut self, segment: &str) -> (r: Result<(), FsError>)
        requires
            old(self).wf(),
        ensures
            final(self).wf(),
            final(self)@.root == old(self)@.root,
            old(self)@.can_enter(segment@) ==> r is Ok && final(self)@ == old(self)@.entered(
                segment@,
            ),
            !old(self)@.can_enter(segment@) ==> r == Err::<(), FsError>(
                FsError::DirectoryNotFound,
            ) && final(self)@ == old(self)@,
            old(self)@.current() is Some ==> final(self)@.current() is Some,
    {
        let ghost before = self.current_path.deep_view();
        proof {
            if self@.current() is Some {
                lemma_current_stays(self@, self@.current()->0, segment@);
            }
            reveal_strlit("..");
            assert(".."@ =~= parent_segment());
        }
        if str_equal(segment, "..") {
            let _ = self.current_path.pop();
            proof {
                if before.len() == 0 {
                    assert(self.current_path.deep_view() =~= before);
                } else {
                    assert(self.current_path.deep_view() =~= before.drop_last());
                }
            }
            return Ok(());
        }
        let found = match self.resolve_current() {
            Ok(dir) => dir.has_subdirectory(segment),
            Err(_) => false,
        };
        if found {
            self.current_path.push(String::from_str(segment));
            proof {
                assert(self.current_path.deep_view() =~= before.push(segment@));
            }
            Ok(())
        } else {
            Err(FsError::DirectoryNotFound)
        }
    }

    /// The content of the file `name` of the current directory.
    pub fn read_file(&self, name: &str) -> (r: Option<String>)
        requires
            self.wf(),
        ensures
            match r {
                Some(c) => self@.current() is Some && self@.current()->0.files.contains_key(
                    name@,
                ) && c@ == self@.current()->0.files[name@],
                None => self@.current() is None || !self@.current()->0.files.contains_key(name@),
            },
    {
        match self.resolve_current() {
            Ok(dir) => match dir.file_content(name) {
                Some(c) => Some(String::from_str(c)),
                None => None,
            },
            Err(_) => None,
        }
    }

    /// Lists the current directory: subdirectories first, then files, each
    /// group in ascending order of name. Where the current path leads
    /// nowhere the listing is empty.
    pub fn list_contents(&self) -> (r: Vec<DirEntry>)
        requires
            self.wf(),
        ensures
            match self@.current() {
                Some(d) => is_listing(d, r.deep_view()),
                None => r@.len() == 0,
            },
    {
        let mut out: Vec<DirEntry> = Vec::new();
        let dir = match self.resolve_current() {
            Ok(dir) => dir,
            Err(_) => {
                return out;
            },
        };
        let ghost dnames = dir_names(dir.subdirectories@);
        let ghost fnames = file_names(dir.files@);
        let mut i: usize = 0;
        while i < dir.subdirectories.len()
            invariant
                i <= dir.subdirectories.len(),
                out@.len() == i,
                forall|j: int|
                    0 <= j < i ==> (#[trigger] out@[j]).deep_view() == (dnames[j], true),
                dnames == dir_names(dir.subdirectories@),
            decreases dir.subdirectories.len() - i,
        {
            out.push(
                DirEntry {
                    name: String::from_str(dir.subdirectories[i].name.as_str()),
                    is_directory: true,
                },
            );
            i += 1;
        }
        let k = i;
        let mut j: usize = 0;
        while j < dir.files.len()
            invariant
                j <= dir.files.len(),
                k == dir.subdirectories.len(),
                out@.len() == k + j,
                forall|x: int|
                    0 <= x < k ==> (#[trigger] out@[x]).deep_view() == (dnames[x], true),
                forall|x: int|
                    0 <= x < j ==> (#[trigger] out@[k + x]).deep_view() == (fnames[x], false),
                fnames == file_names(dir.files@),
            decreases dir.files.len() - j,
        {
            out.push(
                DirEntry { name: String::from_str(dir.files[j].name.as_str()), is_directory: false },
            );
            j += 1;
        }
        proof {
            let entries = out.deep_view();
            let names = Seq::new(entries.len(), |i: int| entries[i].0);
            assert forall|x: int| 0 <= x < entries.len() implies (#[trigger] entries[x]).1 == (x
                < k) by {
                if x < k {
                    assert(out@[x].deep_view() == (dnames[x], true));
                } else {
                    assert(out@[k + (x - k)].deep_view() == (fnames[x - k], false));
                }
            }
            assert(names.take(k as int) =~= dnames) by {
                assert forall|x: int| 0 <= x < k implies names.take(k as int)[x] == dnames[x] by {
                    assert(out@[x].deep_view() == (dnames[x], true));
                }
            }
            assert(names.skip(k as int) =~= fnames) by {
                assert forall|x: int| 0 <= x < j implies names.skip(k as int)[x] == fnames[x] by {
                    assert(out@[k + x].deep_view() == (fnames[x], false));
                }
            }
            lemma_dirs_map(dir.subdirectories@);
            lemma_files_map(dir.files@);
            assert(lists(dir.model(), entries, k as int));
        }
        out
    }
}

} // verus!
