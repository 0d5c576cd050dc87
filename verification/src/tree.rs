//! The filtered directory tree of the model library.
//!
//! The caller lists the library on disk (a [`DirListing`] per directory, entries in the
//! order the file system returned them); the library turns the listing into the tree that
//! the browser shows: only `.3mf`, `.stl`, `.jpg`, `.jpeg` and `.png` files, directories
//! that end up empty pruned, sub-directories and files each sorted by lowercased name
//! (stable, so names equal up to case keep their listed order).
use crate::paths::{extension_of, name_extension};
use crate::text::{chars_of, lowercase_chars, string_from_chars, to_lowercase};
use vstd::prelude::*;
use vstd::string::StringSliceAdditionalSpecFns;
use vstd::utf8::encode_utf8;

verus! {

/// The type of a model or asset file.
#[derive(Debug, Clone, Copy, PartialEq, Eq, Structural)]
pub enum FileKind {
    ThreeMf,
    Stl,
    Image,
}

/// A file shown in the tree.
#[derive(Debug)]
pub struct FileEntry {
    pub name: String,
    /// Path relative to the library root, components joined by `/`.
    pub path: String,
    pub size: u64,
    pub kind: FileKind,
}

/// A directory shown in the tree (the library root is named `root`).
#[derive(Debug)]
pub struct TreeNode {
    pub name: String,
    pub dirs: Vec<TreeNode>,
    pub files: Vec<FileEntry>,
}

/// One directory as listed on disk.
#[derive(Debug)]
pub struct DirListing {
    /// The directory's own file name, if its path has one.
    pub name: Option<String>,
    /// The entries in listing order, or `None` when the directory could not be read.
    pub entries: Option<Vec<ListedEntry>>,
}

/// One directory entry as listed on disk.
#[derive(Debug)]
pub enum ListedEntry {
    /// A sub-directory, with its own listing.
    Dir { name: String, listing: DirListing },
    /// A regular file and its size in bytes.
    File { name: String, size: u64 },
    /// Anything else (neither a directory nor a regular file).
    Other,
}

/// What a file entry shows.
pub struct FileView {
    pub name: Seq<char>,
    pub path: Seq<char>,
    pub size: u64,
    pub kind: FileKind,
}

/// What a tree node shows.
pub struct TreeView {
    pub name: Seq<char>,
    pub dirs: Seq<TreeView>,
    pub files: Seq<FileView>,
}

pub open spec fn file_view(f: FileEntry) -> FileView {
    FileView { name: f.name@, path: f.path@, size: f.size, kind: f.kind }
}

pub open spec fn file_views(fs: Seq<FileEntry>) -> Seq<FileView> {
    fs.map_values(|f: FileEntry| file_view(f))
}

pub open spec fn tree_view(t: TreeNode) -> TreeView
    decreases t,
{
    TreeView { name: t.name@, dirs: tree_views(t.dirs@), files: file_views(t.files@) }
}

pub open spec fn tree_views(ts: Seq<TreeNode>) -> Seq<TreeView>
    decreases ts,
{
    if ts.len() == 0 {
        Seq::empty()
    } else {
        tree_views(ts.drop_last()).push(tree_view(ts.last()))
    }
}

pub open spec fn opt_tree_view(t: Option<TreeNode>) -> Option<TreeView> {
    match t {
        Some(n) => Some(tree_view(n)),
        None => None,
    }
}

/// Sorting key of a name: the UTF-8 bytes of its Unicode lowercase form.
pub open spec fn name_key(name: Seq<char>) -> Seq<u8> {
    encode_utf8(lowercase_chars(name))
}

/// `a <= b` in the lexicographic byte order that `String`'s `Ord` uses.
pub open spec fn bytes_le(a: Seq<u8>, b: Seq<u8>) -> bool
    decreases a.len(),
{
    if a.len() == 0 {
        true
    } else if b.len() == 0 {
        false
    } else if a[0] != b[0] {
        a[0] < b[0]
    } else {
        bytes_le(a.drop_first(), b.drop_first())
    }
}

/// Where a stable insertion puts an element with key `k` into keys sorted ascending:
/// after every key that is not greater than `k`.
pub open spec fn insertion_pos(sorted: Seq<Seq<u8>>, k: Seq<u8>) -> int
    decreases sorted.len(),
{
    if sorted.len() == 0 {
        0
    } else if bytes_le(sorted.last(), k) {
        sorted.len() as int
    } else {
        insertion_pos(sorted.drop_last(), k)
    }
}

/// The order in which a stable sort by `keys` lists the positions `0 .. keys.len()`.
pub open spec fn sort_order(keys: Seq<Seq<u8>>) -> Seq<int>
    decreases keys.len(),
{
    if keys.len() == 0 {
        Seq::empty()
    } else {
        let p = sort_order(keys.drop_last());
        let sorted_keys = p.map_values(|i: int| keys[i]);
        p.insert(insertion_pos(sorted_keys, keys.last()), keys.len() - 1)
    }
}

/// `xs` stably sorted by `keys` (one key per element).
pub open spec fn sorted_by_keys<T>(xs: Seq<T>, keys: Seq<Seq<u8>>) -> Seq<T> {
    sort_order(keys).map_values(|i: int| xs[i])
}

/// `path_of(prefix, name)`: `name` under `prefix` (`/`-joined, or just `name` at the root).
pub open spec fn join_prefix(prefix: Seq<char>, name: Seq<char>) -> Seq<char> {
    if prefix.len() == 0 {
        name
    } else {
        prefix + seq!['/'] + name
    }
}

/// Which kind of file an extension names, compared after Unicode lowercasing.
pub open spec fn spec_classify_extension(ext: Seq<char>) -> Option<FileKind> {
    let l = lowercase_chars(ext);
    if l == "3mf"@ {
        Some(FileKind::ThreeMf)
    } else if l == "stl"@ {
        Some(FileKind::Stl)
    } else if l == "jpg"@ || l == "jpeg"@ || l == "png"@ {
        Some(FileKind::Image)
    } else {
        None
    }
}

/// The kind of a file given its name, when its extension is an accepted one.
pub open spec fn spec_file_kind(name: Seq<char>) -> Option<FileKind> {
    match name_extension(name) {
        Some(e) => spec_classify_extension(e),
        None => None,
    }
}

/// The sub-directory nodes and file entries that the entries contribute, in listing order.
pub open spec fn collect_entries(es: Seq<ListedEntry>, prefix: Seq<char>) -> (
    Seq<TreeView>,
    Seq<FileView>,
)
    decreases es,
{
    if es.len() == 0 {
        (Seq::empty(), Seq::empty())
    } else {
        let (ds, fs) = collect_entries(es.drop_last(), prefix);
        match es.last() {
            ListedEntry::Dir { name, listing } => match scan_view(
                listing,
                join_prefix(prefix, name@),
            ) {
                Some(t) => (ds.push(t), fs),
                None => (ds, fs),
            },
            ListedEntry::File { name, size } => match spec_file_kind(name@) {
                Some(k) => (
                    ds,
                    fs.push(FileView { name: name@, path: join_prefix(prefix, name@), size, kind: k }),
                ),
                None => (ds, fs),
            },
            ListedEntry::Other => (ds, fs),
        }
    }
}

/// The name a scanned directory shows: `root` at the top, otherwise its file name
/// (`unknown` if it has none).
pub open spec fn node_name(dir: DirListing, prefix: Seq<char>) -> Seq<char> {
    if prefix.len() == 0 {
        "root"@
    } else {
        match dir.name {
            Some(n) => n@,
            None => "unknown"@,
        }
    }
}

/// The tree node of a listed directory, or `None` when it is unreadable or nothing in it
/// survives the filter.
pub open spec fn scan_view(dir: DirListing, prefix: Seq<char>) -> Option<TreeView>
    decreases dir,
{
    match dir.entries {
        None => None,
        Some(es) => {
            let (ds, fs) = collect_entries(es@, prefix);
            if ds.len() == 0 && fs.len() == 0 {
                None
            } else {
                Some(
                    TreeView {
                        name: node_name(dir, prefix),
                        dirs: sorted_by_keys(ds, ds.map_values(|d: TreeView| name_key(d.name))),
                        files: sorted_by_keys(fs, fs.map_values(|f: FileView| name_key(f.name))),
                    },
                )
            }
        },
    }
}


/// Which kind of file an extension names (`3mf`, `stl`, or one of the image types),
/// compared after Unicode lowercasing.
pub fn classify_extension(ext: &str) -> (r: Option<FileKind>)
    ensures
        r == spec_classify_extension(ext@),
{
    let l = to_lowercase(&chars_of(ext));
    if crate::text::chars_eq(&l, &chars_of("3mf")) {
        Some(FileKind::ThreeMf)
    } else if crate::text::chars_eq(&l, &chars_of("stl")) {
        Some(FileKind::Stl)
    } else if crate::text::chars_eq(&l, &chars_of("jpg")) || crate::text::chars_eq(
        &l,
        &chars_of("jpeg"),
    ) || crate::text::chars_eq(&l, &chars_of("png")) {
        Some(FileKind::Image)
    } else {
        None
    }
}

fn file_kind_of(name: &[char]) -> (r: Option<FileKind>)
    ensures
        r == spec_file_kind(name@),
{
    match extension_of(name) {
        Some(e) => {
            let s = string_from_chars(&e);
            classify_extension(s.as_str())
        },
        None => None,
    }
}

fn name_key_of(name: &[char]) -> (k: Vec<u8>)
    ensures
        k@ == name_key(name@),
{
    let l = to_lowercase(name);
    let s = string_from_chars(&l);
    let b = s.as_str().as_bytes();
    let mut k: Vec<u8> = Vec::new();
    let mut i: usize = 0;
    while i < b.len()
        invariant
            i <= b@.len(),
            k@ == b@.take(i as int),
        decreases b@.len() - i,
    {
        k.push(b[i]);
        i = i + 1;
        assert(k@ =~= b@.take(i as int));
    }
    assert(b@.take(i as int) =~= b@);
    k
}

fn bytes_le_exec(a: &[u8], b: &[u8]) -> (r: bool)
    ensures
        r == bytes_le(a@, b@),
{
    let mut i: usize = 0;
    assert(a@.skip(0) =~= a@);
    assert(b@.skip(0) =~= b@);
    loop
        invariant
            i <= a@.len(),
            i <= b@.len(),
            bytes_le(a@, b@) == bytes_le(a@.skip(i as int), b@.skip(i as int)),
        decreases a@.len() - i,
    {
        if i == a.len() {
            return true;
        }
        if i == b.len() {
            return false;
        }
        if a[i] != b[i] {
            return a[i] < b[i];
        }
        assert(a@.skip(i as int).drop_first() =~= a@.skip(i + 1));
        assert(b@.skip(i as int).drop_first() =~= b@.skip(i + 1));
        i = i + 1;
    }
}

pub open spec fn key_views(ks: Seq<Vec<u8>>) -> Seq<Seq<u8>> {
    ks.map_values(|v: Vec<u8>| v@)
}

proof fn lemma_sort_order_range(keys: Seq<Seq<u8>>)
    ensures
        sort_order(keys).len() == keys.len(),
        forall|k: int| 0 <= k < keys.len() ==> 0 <= #[trigger] sort_order(keys)[k] < keys.len(),
    decreases keys.len(),
{
    if keys.len() > 0 {
        lemma_sort_order_range(keys.drop_last());
        lemma_insertion_pos_range(
            sort_order(keys.drop_last()).map_values(|i: int| keys[i]),
            keys.last(),
        );
    }
}

proof fn lemma_insertion_pos_range(sorted: Seq<Seq<u8>>, k: Seq<u8>)
    ensures
        0 <= insertion_pos(sorted, k) <= sorted.len(),
    decreases sorted.len(),
{
    if sorted.len() > 0 {
        lemma_insertion_pos_range(sorted.drop_last(), k);
    }
}

/// Stable sort of `items` by the byte keys `keys` (one key per item).
pub fn sort_by_key_bytes<T>(items: Vec<T>, keys: Vec<Vec<u8>>) -> (out: Vec<T>)
    requires
        items@.len() == keys@.len(),
    ensures
        out@ == sorted_by_keys(items@, key_views(keys@)),
{
    let ghost orig = items@;
    let ghost ks = key_views(keys@);
    let n = keys.len();
    let mut rest = items;
    let mut sorted: Vec<T> = Vec::new();
    let mut sorted_keys: Vec<Vec<u8>> = Vec::new();
    let mut i: usize = 0;
    while i < n
        invariant
            i <= n,
            n == keys@.len(),
            ks == key_views(keys@),
            orig.len() == n,
            rest@ == orig.skip(i as int),
            sorted@ == sort_order(ks.take(i as int)).map_values(|j: int| orig[j]),
            key_views(sorted_keys@) == sort_order(ks.take(i as int)).map_values(|j: int| ks[j]),
        decreases n - i,
    {
        proof {
            lemma_sort_order_range(ks.take(i as int));
        }
        let x = rest.remove(0);
        let k = &keys[i];
        let mut pos = sorted_keys.len();
        assert(key_views(sorted_keys@).take(sorted_keys@.len() as int) =~= key_views(
            sorted_keys@,
        ));
        while pos > 0 && !bytes_le_exec(&sorted_keys[pos - 1], k)
            invariant
                pos <= sorted_keys@.len(),
                insertion_pos(key_views(sorted_keys@), k@) == insertion_pos(
                    key_views(sorted_keys@).take(pos as int),
                    k@,
                ),
            decreases pos,
        {
            assert(key_views(sorted_keys@).take(pos as int).drop_last() =~= key_views(
                sorted_keys@,
            ).take(pos - 1));
            pos = pos - 1;
        }
        proof {
            let ts = key_views(sorted_keys@).take(pos as int);
            if pos > 0 {
                assert(ts.last() == sorted_keys@[pos - 1]@);
            }
            assert(key_views(sorted_keys@).take(sorted_keys@.len() as int) =~= key_views(
                sorted_keys@,
            ));
        }
        let ghost p = sort_order(ks.take(i as int));
        let ghost old_sorted = sorted@;
        let ghost old_keys = key_views(sorted_keys@);
        let kc = keys[i].clone();
        assert(kc@ =~= keys@[i as int]@);
        sorted.insert(pos, x);
        sorted_keys.insert(pos, kc);
        assert(key_views(sorted_keys@) =~= old_keys.insert(pos as int, kc@));
        i = i + 1;
        proof {
            let ks1 = ks.take(i as int);
            assert(ks1.drop_last() =~= ks.take(i - 1));
            assert(ks1.last() == ks[i - 1]);
            let sk = p.map_values(|j: int| ks1[j]);
            assert(sk =~= p.map_values(|j: int| ks[j]));
            assert(sort_order(ks1) == p.insert(pos as int, i - 1));
            assert(orig[i - 1] == x);
            assert(sorted@ =~= sort_order(ks1).map_values(|j: int| orig[j]));
            assert(key_views(sorted_keys@) =~= sort_order(ks1).map_values(|j: int| ks[j]));
        }
    }
    assert(ks.take(n as int) =~= ks);
    sorted
}

proof fn lemma_tree_views_index(ts: Seq<TreeNode>)
    ensures
        tree_views(ts).len() == ts.len(),
        forall|k: int| 0 <= k < ts.len() ==> #[trigger] tree_views(ts)[k] == tree_view(ts[k]),
    decreases ts.len(),
{
    if ts.len() > 0 {
        lemma_tree_views_index(ts.drop_last());
    }
}

proof fn lemma_sorted_views(ds: Seq<TreeNode>, keys: Seq<Seq<u8>>)
    requires
        ds.len() == keys.len(),
    ensures
        tree_views(sorted_by_keys(ds, keys)) == sorted_by_keys(tree_views(ds), keys),
{
    lemma_sort_order_range(keys);
    lemma_tree_views_index(ds);
    lemma_tree_views_index(sorted_by_keys(ds, keys));
    assert(tree_views(sorted_by_keys(ds, keys)) =~= sorted_by_keys(tree_views(ds), keys));
}

fn join_prefix_exec(prefix: &[char], name: &[char]) -> (r: Vec<char>)
    ensures
        r@ == join_prefix(prefix@, name@),
{
    let mut r: Vec<char> = Vec::new();
    if prefix.len() > 0 {
        let mut i: usize = 0;
        while i < prefix.len()
            invariant
                i <= prefix@.len(),
                r@ == prefix@.take(i as int),
            decreases prefix@.len() - i,
        {
            r.push(prefix[i]);
            i = i + 1;
            assert(r@ =~= prefix@.take(i as int));
        }
        r.push('/');
    }
    let ghost start = r@;
    let mut j: usize = 0;
    while j < name.len()
        invariant
            j <= name@.len(),
            r@ == start + name@.take(j as int),
        decreases name@.len() - j,
    {
        r.push(name[j]);
        j = j + 1;
        assert(r@ =~= start + name@.take(j as int));
    }
    assert(name@.take(j as int) =~= name@);
    assert(prefix@.take(prefix@.len() as int) =~= prefix@);
    assert(r@ =~= join_prefix(prefix@, name@));
    r
}

/// Scan a listed directory into its tree node (see [`scan_view`]); `prefix` is the
/// directory's path relative to the library root, empty for the root itself.
pub fn scan_directory(dir: &DirListing, prefix: &str) -> (r: Option<TreeNode>)
    ensures
        opt_tree_view(r) == scan_view(*dir, prefix@),
    decreases dir,
{
    let entries = match &dir.entries {
        None => return None,
        Some(es) => es,
    };
    let pchars = chars_of(prefix);
    let mut dirs: Vec<TreeNode> = Vec::new();
    let mut dir_keys: Vec<Vec<u8>> = Vec::new();
    let mut files: Vec<FileEntry> = Vec::new();
    let mut file_keys: Vec<Vec<u8>> = Vec::new();
    let mut i: usize = 0;
    while i < entries.len()
        invariant
            i <= entries@.len(),
            dir.entries == Some(*entries),
            pchars@ == prefix@,
            (tree_views(dirs@), file_views(files@)) == collect_entries(
                entries@.take(i as int),
                prefix@,
            ),
            key_views(dir_keys@) == tree_views(dirs@).map_values(|d: TreeView| name_key(d.name)),
            key_views(file_keys@) == file_views(files@).map_values(
                |f: FileView| name_key(f.name),
            ),
        decreases entries@.len() - i,
    {
        assert(entries@.take(i + 1).drop_last() =~= entries@.take(i as int));
        let ghost tv = tree_views(dirs@);
        let ghost old_dirs = dirs@;
        let ghost kv0 = key_views(dir_keys@);
        let ghost fk0 = key_views(file_keys@);
        let ghost old_files = files@;
        let ghost fv = file_views(files@);
        match &entries[i] {
            ListedEntry::Dir { name, listing } => {
                let nc = chars_of(name.as_str());
                let cp = string_from_chars(&join_prefix_exec(&pchars, &nc));
                proof {
                    assert(decreases_to!(*dir => dir.entries));
                    assert(decreases_to!(dir.entries => dir.entries->0));
                    assert(dir.entries->0 == *entries);
                    assert(decreases_to!(*entries => entries@));
                    assert(decreases_to!(entries@ => entries@[i as int]));
                }
                match scan_directory(listing, cp.as_str()) {
                    Some(t) => {
                        let key = name_key_of(&chars_of(t.name.as_str()));
                        dir_keys.push(key);
                        dirs.push(t);
                        assert(dirs@.drop_last() =~= old_dirs);
                        assert(tree_views(dirs@) == tv.push(tree_view(dirs@.last())));
                        assert(key_views(dir_keys@) =~= kv0.push(dir_keys@.last()@));
                        assert(key_views(dir_keys@) =~= tree_views(dirs@).map_values(
                            |d: TreeView| name_key(d.name),
                        ));
                    },
                    None => {},
                }
            },
            ListedEntry::File { name, size } => {
                let nc = chars_of(name.as_str());
                match file_kind_of(&nc) {
                    Some(kind) => {
                        let path = string_from_chars(&join_prefix_exec(&pchars, &nc));
                        let key = name_key_of(&nc);
                        file_keys.push(key);
                        files.push(FileEntry { name: name.clone(), path, size: *size, kind });
                        assert(file_views(files@) =~= fv.push(file_view(files@.last())));
                        assert(key_views(file_keys@) =~= fk0.push(file_keys@.last()@));
                        assert(key_views(file_keys@) =~= file_views(files@).map_values(
                            |f: FileView| name_key(f.name),
                        ));
                    },
                    None => {},
                }
            },
            ListedEntry::Other => {},
        }
        i = i + 1;
    }
    assert(entries@.take(i as int) =~= entries@);
    if dirs.len() == 0 && files.len() == 0 {
        proof {
            lemma_tree_views_index(dirs@);
        }
        return None;
    }
    let name = if pchars.len() == 0 {
        string_from_chars(&chars_of("root"))
    } else {
        match &dir.name {
            Some(n) => n.clone(),
            None => string_from_chars(&chars_of("unknown")),
        }
    };
    proof {
        lemma_tree_views_index(dirs@);
        lemma_sorted_views(dirs@, key_views(dir_keys@));
    }
    let ghost dv = dirs@;
    let ghost fvs = files@;
    let sorted_dirs = sort_by_key_bytes(dirs, dir_keys);
    let sorted_files = sort_by_key_bytes(files, file_keys);
    proof {
        lemma_sort_order_range(key_views(file_keys@));
        assert(file_views(sorted_files@) =~= sorted_by_keys(file_views(fvs), key_views(file_keys@)));
    }
    Some(TreeNode { name, dirs: sorted_dirs, files: sorted_files })
}

/// The tree of the whole library: the scanned root, or an empty `root` node when nothing
/// in the library survives the filter.
pub fn build_tree(root: &DirListing) -> (t: TreeNode)
    ensures
        tree_view(t) == (match scan_view(*root, Seq::empty()) {
            Some(v) => v,
            None => TreeView { name: "root"@, dirs: Seq::empty(), files: Seq::empty() },
        }),
{
    let empty = string_from_chars(&Vec::new());
    let es = empty.as_str();
    assert(es@ =~= Seq::<char>::empty());
    match scan_directory(root, es) {
        Some(t) => t,
        None => {
            let t = TreeNode {
                name: string_from_chars(&chars_of("root")),
                dirs: Vec::new(),
                files: Vec::new(),
            };
            assert(tree_views(t.dirs@) =~= Seq::<TreeView>::empty());
            assert(file_views(t.files@) =~= Seq::<FileView>::empty());
            t
        },
    }
}

// ---------------------------------------------------------------------------------------
// Laws of the scanned tree
// ---------------------------------------------------------------------------------------

/// Keys in ascending byte order.
pub open spec fn keys_sorted(ks: Seq<Seq<u8>>) -> bool {
    forall|i: int, j: int| 0 <= i < j < ks.len() ==> bytes_le(#[trigger] ks[i], #[trigger] ks[j])
}

/// What the browser relies on of every node of the tree: it is not empty, its files carry
/// an accepted extension of their kind, its sub-directories and its files are each in
/// ascending order of lowercased name, and the same holds of every sub-directory.
pub open spec fn tree_well_formed(t: TreeView) -> bool
    decreases t,
{
    &&& t.dirs.len() > 0 || t.files.len() > 0
    &&& forall|i: int| 0 <= i < t.files.len() ==> spec_file_kind(#[trigger] t.files[i].name) == Some(t.files[i].kind)
    &&& keys_sorted(t.files.map_values(|f: FileView| name_key(f.name)))
    &&& keys_sorted(t.dirs.map_values(|d: TreeView| name_key(d.name)))
    &&& forall|i: int| 0 <= i < t.dirs.len() ==> tree_well_formed(#[trigger] t.dirs[i])
}

proof fn lemma_bytes_le_total(a: Seq<u8>, b: Seq<u8>)
    ensures
        bytes_le(a, b) || bytes_le(b, a),
    decreases a.len(),
{
    if a.len() > 0 && b.len() > 0 && a[0] == b[0] {
        lemma_bytes_le_total(a.drop_first(), b.drop_first());
    }
}

proof fn lemma_bytes_le_trans(a: Seq<u8>, b: Seq<u8>, c: Seq<u8>)
    requires
        bytes_le(a, b),
        bytes_le(b, c),
    ensures
        bytes_le(a, c),
    decreases a.len(),
{
    if a.len() > 0 && b.len() > 0 && c.len() > 0 && a[0] == b[0] && b[0] == c[0] {
        lemma_bytes_le_trans(a.drop_first(), b.drop_first(), c.drop_first());
    }
}

/// Every key before the insertion point is not greater than `k`; every key from it on is
/// greater.
proof fn lemma_insertion_pos_split(sorted: Seq<Seq<u8>>, k: Seq<u8>)
    requires
        keys_sorted(sorted),
    ensures
        forall|i: int| 0 <= i < insertion_pos(sorted, k) ==> bytes_le(#[trigger] sorted[i], k),
        forall|i: int| insertion_pos(sorted, k) <= i < sorted.len() ==> !bytes_le(#[trigger] sorted[i], k),
    decreases sorted.len(),
{
    lemma_insertion_pos_range(sorted, k);
    if sorted.len() > 0 {
        let n = sorted.len() as int;
        if bytes_le(sorted.last(), k) {
            assert forall|i: int| 0 <= i < n implies bytes_le(#[trigger] sorted[i], k) by {
                if i < n - 1 {
                    lemma_bytes_le_trans(sorted[i], sorted[n - 1], k);
                }
            }
        } else {
            let d = sorted.drop_last();
            assert(keys_sorted(d));
            lemma_insertion_pos_split(d, k);
            lemma_insertion_pos_range(d, k);
            assert(insertion_pos(sorted, k) == insertion_pos(d, k));
            assert forall|i: int| 0 <= i < insertion_pos(sorted, k) implies bytes_le(#[trigger] sorted[i], k) by {
                assert(sorted[i] == d[i]);
            }
            assert forall|i: int| insertion_pos(sorted, k) <= i < n implies !bytes_le(#[trigger] sorted[i], k) by {
                if i < n - 1 {
                    assert(sorted[i] == d[i]);
                }
            }
        }
    }
}

/// Inserting at the insertion point keeps keys sorted.
proof fn lemma_insert_sorted(sorted: Seq<Seq<u8>>, k: Seq<u8>)
    requires
        keys_sorted(sorted),
    ensures
        keys_sorted(sorted.insert(insertion_pos(sorted, k), k)),
{
    let pos = insertion_pos(sorted, k);
    lemma_insertion_pos_split(sorted, k);
    lemma_insertion_pos_range(sorted, k);
    sorted.insert_ensures(pos, k);
    let r = sorted.insert(pos, k);
    assert forall|i: int, j: int| 0 <= i < j < r.len() implies bytes_le(#[trigger] r[i], #[trigger] r[j]) by {
        if j < pos {
        } else if j == pos {
            assert(r[i] == sorted[i]);
        } else if i < pos {
            assert(r[j] == sorted[j - 1]);
            assert(r[i] == sorted[i]);
            assert(!bytes_le(sorted[j - 1], k));
            lemma_bytes_le_total(sorted[j - 1], k);
            lemma_bytes_le_trans(sorted[i], k, sorted[j - 1]);
        } else if i == pos {
            assert(r[j] == sorted[j - 1]);
            lemma_bytes_le_total(sorted[j - 1], k);
        } else {
            assert(r[i] == sorted[i - 1]);
            assert(r[j] == sorted[j - 1]);
        }
    }
}

/// A stable sort lists the keys in ascending order.
pub proof fn lemma_sort_order_sorted(keys: Seq<Seq<u8>>)
    ensures
        keys_sorted(sort_order(keys).map_values(|i: int| keys[i])),
    decreases keys.len(),
{
    if keys.len() > 0 {
        let d = keys.drop_last();
        lemma_sort_order_sorted(d);
        lemma_sort_order_range(d);
        let p = sort_order(d);
        let sk = p.map_values(|i: int| keys[i]);
        assert(sk =~= p.map_values(|i: int| d[i]));
        lemma_insert_sorted(sk, keys.last());
        let pos = insertion_pos(sk, keys.last());
        lemma_insertion_pos_range(sk, keys.last());
        assert(sort_order(keys).map_values(|i: int| keys[i]) =~= sk.insert(pos, keys.last()));
    }
}

/// The elements of a stably sorted sequence, listed by key in ascending order.
proof fn lemma_sorted_by_keys_facts<T>(xs: Seq<T>, keys: Seq<Seq<u8>>)
    requires
        xs.len() == keys.len(),
    ensures
        sorted_by_keys(xs, keys).len() == xs.len(),
        forall|i: int| 0 <= i < xs.len() ==> 0 <= #[trigger] sort_order(keys)[i] < xs.len(),
        forall|i: int| 0 <= i < xs.len() ==> #[trigger] sorted_by_keys(xs, keys)[i] == xs[sort_order(keys)[i]],
        keys_sorted(sort_order(keys).map_values(|i: int| keys[i])),
{
    lemma_sort_order_range(keys);
    lemma_sort_order_sorted(keys);
}

proof fn lemma_collect_well_formed(es: Seq<ListedEntry>, prefix: Seq<char>)
    ensures
        forall|i: int| 0 <= i < collect_entries(es, prefix).0.len() ==> tree_well_formed(#[trigger] collect_entries(es, prefix).0[i]),
        forall|i: int| 0 <= i < collect_entries(es, prefix).1.len() ==> spec_file_kind(#[trigger] collect_entries(es, prefix).1[i].name)
            == Some(collect_entries(es, prefix).1[i].kind),
    decreases es,
{
    if es.len() > 0 {
        lemma_collect_well_formed(es.drop_last(), prefix);
        match es.last() {
            ListedEntry::Dir { name, listing } => {
                assert(decreases_to!(es => es[es.len() - 1]));
                lemma_scan_well_formed(listing, join_prefix(prefix, name@));
            },
            _ => {},
        }
    }
}

/// Laws of a scanned directory: the node is never empty (empty directories are pruned),
/// it lists only files of an accepted extension, its sub-directories and files come in
/// ascending order of lowercased name, and so on down the tree.
pub proof fn lemma_scan_well_formed(dir: DirListing, prefix: Seq<char>)
    ensures
        scan_view(dir, prefix) matches Some(t) ==> tree_well_formed(t),
    decreases dir,
{
    match dir.entries {
        None => {},
        Some(es) => {
            assert(decreases_to!(dir => dir.entries));
            assert(decreases_to!(dir.entries => es));
            assert(decreases_to!(es => es@));
            lemma_collect_well_formed(es@, prefix);
            let (ds, fs) = collect_entries(es@, prefix);
            if !(ds.len() == 0 && fs.len() == 0) {
                let dk = ds.map_values(|d: TreeView| name_key(d.name));
                let fk = fs.map_values(|f: FileView| name_key(f.name));
                lemma_sorted_by_keys_facts(ds, dk);
                lemma_sorted_by_keys_facts(fs, fk);
                let t = scan_view(dir, prefix)->0;
                assert(t.dirs == sorted_by_keys(ds, dk));
                assert(t.files == sorted_by_keys(fs, fk));
                assert(t.files.map_values(|f: FileView| name_key(f.name)) =~= sort_order(fk).map_values(|i: int| fk[i]));
                assert(t.dirs.map_values(|d: TreeView| name_key(d.name)) =~= sort_order(dk).map_values(|i: int| dk[i]));
                assert forall|i: int| 0 <= i < t.dirs.len() implies tree_well_formed(#[trigger] t.dirs[i]) by {
                    assert(t.dirs[i] == ds[sort_order(dk)[i]]);
                }
                assert forall|i: int| 0 <= i < t.files.len() implies spec_file_kind(#[trigger] t.files[i].name) == Some(t.files[i].kind) by {
                    assert(t.files[i] == fs[sort_order(fk)[i]]);
                }
            }
        },
    }
}

/// The tree of the whole library is well formed, except for the empty `root` node that
/// stands for a library in which nothing survives the filter.
pub proof fn lemma_build_tree_well_formed(root: DirListing)
    ensures
        scan_view(root, Seq::empty()) is Some ==> tree_well_formed(scan_view(root, Seq::empty())->0),
{
    lemma_scan_well_formed(root, Seq::empty());
}

/// The last occurrence of `c` is at `i` when `cs[i]` is `c` and no later character is.
proof fn lemma_last_index_at(cs: Seq<char>, c: char, i: int)
    requires
        0 <= i < cs.len(),
        cs[i] == c,
        forall|j: int| i < j < cs.len() ==> cs[j] != c,
    ensures
        crate::paths::last_index_of(cs, c) == Some(i),
    decreases cs.len(),
{
    if cs.len() - 1 != i {
        assert forall|j: int| i < j < cs.drop_last().len() implies cs.drop_last()[j] != c by {}
        lemma_last_index_at(cs.drop_last(), c, i);
    }
}

/// Law of file kinds: a file's kind depends only on its extension, the text after the last
/// dot, whatever dots the rest of the name holds (`Benchy.gcode.3mf` is a 3MF file).
pub proof fn lemma_file_kind_by_extension(stem: Seq<char>, ext: Seq<char>)
    requires
        stem.len() > 0,
        !ext.contains('.'),
        stem + seq!['.'] + ext != seq!['.', '.'],
    ensures
        spec_file_kind(stem + seq!['.'] + ext) == spec_classify_extension(ext),
{
    let name = stem + seq!['.'] + ext;
    assert forall|j: int| stem.len() < j < name.len() implies name[j] != '.' by {
        assert(name[j] == ext[j - stem.len() - 1]);
    }
    lemma_last_index_at(name, '.', stem.len() as int);
    assert(name.skip(stem.len() as int + 1) =~= ext);
}

/// A stable sort lists every position.
proof fn lemma_sort_order_complete(keys: Seq<Seq<u8>>)
    ensures
        forall|j: int| 0 <= j < keys.len() ==> #[trigger] sort_order(keys).contains(j),
    decreases keys.len(),
{
    if keys.len() > 0 {
        let d = keys.drop_last();
        lemma_sort_order_complete(d);
        lemma_sort_order_range(d);
        let p = sort_order(d);
        let pos = insertion_pos(p.map_values(|i: int| keys[i]), keys.last());
        lemma_insertion_pos_range(p.map_values(|i: int| keys[i]), keys.last());
        let q = p.insert(pos, keys.len() - 1);
        assert(q == sort_order(keys));
        assert forall|j: int| 0 <= j < keys.len() implies q.contains(j) by {
            if j == keys.len() - 1 {
                assert(q[pos] == j);
            } else {
                assert(p.contains(j));
                let k = choose|k: int| 0 <= k < p.len() && p[k] == j;
                if k < pos {
                    assert(q[k] == j);
                } else {
                    assert(q[k + 1] == j);
                }
            }
        }
    }
}

/// Every listed regular file of an accepted kind is collected, with its path, size and
/// kind.
proof fn lemma_file_is_collected(es: Seq<ListedEntry>, prefix: Seq<char>, i: int)
    requires
        0 <= i < es.len(),
        es[i] matches ListedEntry::File { name, size } && spec_file_kind(name@) is Some,
    ensures
        es[i] matches ListedEntry::File { name, size } && collect_entries(es, prefix).1.contains(
            FileView {
                name: name@,
                path: join_prefix(prefix, name@),
                size,
                kind: spec_file_kind(name@)->0,
            },
        ),
    decreases es.len(),
{
    let fs = collect_entries(es, prefix).1;
    let fs0 = collect_entries(es.drop_last(), prefix).1;
    if i < es.len() - 1 {
        lemma_file_is_collected(es.drop_last(), prefix, i);
        assert(es.drop_last()[i] == es[i]);
        if let ListedEntry::File { name, size } = es[i] {
            let v = FileView { name: name@, path: join_prefix(prefix, name@), size, kind: spec_file_kind(name@)->0 };
            let k = choose|k: int| 0 <= k < fs0.len() && fs0[k] == v;
            assert(fs.len() >= fs0.len() && fs[k] == fs0[k]);
        }
    } else {
        if let ListedEntry::File { name, size } = es[i] {
            assert(fs == fs0.push(FileView { name: name@, path: join_prefix(prefix, name@), size, kind: spec_file_kind(name@)->0 }));
            assert(fs[fs0.len() as int] == FileView { name: name@, path: join_prefix(prefix, name@), size, kind: spec_file_kind(name@)->0 });
        }
    }
}

/// Law of the scan: every regular file of a readable directory whose extension is an
/// accepted one (`3mf`, `stl`, `jpg`, `jpeg`, `png`, in any case) appears in that
/// directory's node, with its path below `prefix`, size and kind; so the node exists.
pub proof fn lemma_accepted_file_is_listed(dir: DirListing, prefix: Seq<char>, i: int)
    requires
        dir.entries matches Some(es) && 0 <= i < es@.len() && (es@[i] matches ListedEntry::File {
            name,
            size,
        } && spec_file_kind(name@) is Some),
    ensures
        dir.entries matches Some(es) && (es@[i] matches ListedEntry::File { name, size } && (
        scan_view(dir, prefix) matches Some(t) && t.files.contains(
            FileView {
                name: name@,
                path: join_prefix(prefix, name@),
                size,
                kind: spec_file_kind(name@)->0,
            },
        ))),
{
    if let Some(es) = dir.entries {
        lemma_file_is_collected(es@, prefix, i);
        let (ds, fs) = collect_entries(es@, prefix);
        let keys = fs.map_values(|f: FileView| name_key(f.name));
        lemma_sorted_by_keys_facts(fs, keys);
        lemma_sort_order_complete(keys);
        if let ListedEntry::File { name, size } = es@[i] {
            let v = FileView { name: name@, path: join_prefix(prefix, name@), size, kind: spec_file_kind(name@)->0 };
            let k = choose|k: int| 0 <= k < fs.len() && fs[k] == v;
            assert(sort_order(keys).contains(k));
            let m = choose|m: int| 0 <= m < sort_order(keys).len() && sort_order(keys)[m] == k;
            assert(sorted_by_keys(fs, keys)[m] == v);
        }
    }
}

} // verus!
