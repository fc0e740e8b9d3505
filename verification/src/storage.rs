//! The index of the files under the data root: a flat list, and a view of it
//! grouped by date folder that is computed on demand and kept until the list
//! changes.

use crate::clock::{local_today, now_millis};
use crate::text::{
    contains, contains_text, join_path, joined, lemma_split_nonempty, lemma_texts_push,
    same_text, split, split_text, text_of, texts,
};
use vstd::prelude::*;

verus! {

/// The directory that holds the downloaded files, one folder per day.
pub const DATA_ROOT: &'static str = "data";

/// The name that marks the files of the job store, which the index leaves out.
pub const STORE_FILE_MARK: &'static str = "jobs.sqlite";

/// A point in time: seconds since the Unix epoch and the nanoseconds within
/// the second. Two points are ordered by the seconds first.
#[derive(Clone, Copy, Debug, PartialEq, Eq, Structural)]
pub struct Timestamp {
    pub secs: i64,
    pub nanos: u32,
}

impl Timestamp {
    /// Whether `self` is strictly later than `other`.
    pub open spec fn later_than(self, other: Timestamp) -> bool {
        self.secs > other.secs || (self.secs == other.secs && self.nanos > other.nanos)
    }

    /// The Unix epoch.
    pub fn epoch() -> (t: Timestamp)
        ensures
            t == (Timestamp { secs: 0, nanos: 0 }),
    {
        Timestamp { secs: 0, nanos: 0 }
    }

    /// Whether `self` is strictly later than `other`.
    pub fn is_after(&self, other: &Timestamp) -> (r: bool)
        ensures
            r == self.later_than(*other),
    {
        self.secs > other.secs || (self.secs == other.secs && self.nanos > other.nanos)
    }
}

/// One file under the data root.
#[derive(Debug, PartialEq, Eq)]
pub struct FileItem {
    pub path: String,
    pub name: String,
    pub size: u64,
    pub created_at: Timestamp,
    pub date_folder: String,
}

/// What a file entry holds, as plain values.
pub ghost struct FileItemView {
    pub path: Seq<char>,
    pub name: Seq<char>,
    pub size: nat,
    pub created_at: Timestamp,
    pub date_folder: Seq<char>,
}

impl View for FileItem {
    type V = FileItemView;

    open spec fn view(&self) -> FileItemView {
        FileItemView {
            path: self.path@,
            name: self.name@,
            size: self.size as nat,
            created_at: self.created_at,
            date_folder: self.date_folder@,
        }
    }
}

impl Clone for FileItem {
    fn clone(&self) -> (copy: FileItem)
        ensures
            copy@ == self@,
    {
        FileItem {
            path: self.path.clone(),
            name: self.name.clone(),
            size: self.size,
            created_at: self.created_at,
            date_folder: self.date_folder.clone(),
        }
    }
}

/// The last of `pieces` that names something: pieces that are empty or a
/// single dot at the end count for nothing, and two dots at the end name
/// the directory above, which is no name.
pub open spec fn final_component(pieces: Seq<Seq<char>>) -> Option<Seq<char>>
    decreases pieces.len(),
{
    if pieces.len() == 0 {
        None
    } else if pieces.last().len() == 0 || pieces.last() == "."@ {
        final_component(pieces.drop_last())
    } else if pieces.last() == ".."@ {
        None
    } else {
        Some(pieces.last())
    }
}

/// The final component of `path`, whose pieces stand between slashes: the
/// name of the file or of the directory that the path leads to. Slashes and
/// single dots at the end of the path count for nothing. `None` for a path
/// that ends in two dots and for a path that names nothing.
pub open spec fn file_name_of(path: Seq<char>) -> Option<Seq<char>> {
    final_component(split_text(path, '/'))
}

/// The file's own name: the final component of `path`, or the empty text
/// if it has none.
pub open spec fn base_name_of(path: Seq<char>) -> Seq<char> {
    match file_name_of(path) {
        Some(name) => name,
        None => Seq::<char>::empty(),
    }
}

/// The pieces of `pieces` that name something: all but the empty ones and
/// the single dots.
pub open spec fn named_pieces(pieces: Seq<Seq<char>>) -> Seq<Seq<char>>
    decreases pieces.len(),
{
    if pieces.len() == 0 {
        Seq::<Seq<char>>::empty()
    } else if pieces.last().len() == 0 || pieces.last() == "."@ {
        named_pieces(pieces.drop_last())
    } else {
        named_pieces(pieces.drop_last()).push(pieces.last())
    }
}

/// The components of `path`, whose pieces stand between slashes. A path
/// that begins with a slash has the slash as its first component; any other
/// has its first piece, be it a dot. Of the pieces that follow, the empty
/// ones and the single dots count for nothing. The empty path has no
/// component.
pub open spec fn components_of(path: Seq<char>) -> Seq<Seq<char>> {
    let pieces = split_text(path, '/');
    let head = if path.len() == 0 {
        Seq::<Seq<char>>::empty()
    } else if pieces[0].len() == 0 {
        seq!["/"@]
    } else {
        seq![pieces[0]]
    };
    head + named_pieces(pieces.skip(1))
}

/// The date folder of `path`: the first component of the path as seen from
/// the data root, that is, behind a first component `data` if the path has
/// it. A path without such a component has the empty text.
pub open spec fn date_folder_of(path: Seq<char>) -> Seq<char> {
    let all = components_of(path);
    let below = if all.len() > 0 && all[0] == DATA_ROOT@ {
        all.skip(1)
    } else {
        all
    };
    if below.len() > 0 {
        below[0]
    } else {
        Seq::<char>::empty()
    }
}

impl FileItem {
    /// The entry for the file at `path`, of `size` bytes and created at
    /// `created_at`. Its name and its date folder are read off the path.
    pub fn describe(path: String, size: u64, created_at: Timestamp) -> (item: FileItem)
        ensures
            item@ == (FileItemView {
                path: path@,
                name: base_name_of(path@),
                size: size as nat,
                created_at,
                date_folder: date_folder_of(path@),
            }),
    {
        let name = base_name(path.as_str());
        let date_folder = date_folder(path.as_str());
        FileItem { path, name, size, created_at, date_folder }
    }
}

/// The final component of `path`, if it has one.
pub fn file_name(path: &str) -> (name: Option<String>)
    ensures
        text_of(name) == file_name_of(path@),
        name matches Some(text) ==> text@.len() > 0,
{
    let pieces = split(path, '/');
    let ghost all = texts(pieces@);
    let mut i: usize = pieces.len();
    proof {
        assert(all.take(i as int) =~= all);
    }
    while i > 0
        invariant
            i <= pieces.len(),
            all == texts(pieces@),
            all == split_text(path@, '/'),
            final_component(all) == final_component(all.take(i as int)),
        decreases i,
    {
        let piece: &str = pieces[i - 1].as_str();
        proof {
            assert(all.take(i as int).last() == pieces@[i - 1]@);
            assert(all.take(i as int).drop_last() =~= all.take(i - 1));
        }
        if piece.unicode_len() == 0 || same_text(piece, ".") {
            i = i - 1;
        } else if same_text(piece, "..") {
            return None;
        } else {
            return Some(pieces[i - 1].clone());
        }
    }
    None
}

/// The file's own name: the final component of `path`, or the empty text
/// if it has none.
pub fn base_name(path: &str) -> (name: String)
    ensures
        name@ == base_name_of(path@),
{
    match file_name(path) {
        Some(name) => name,
        None => String::new(),
    }
}

/// The components of `path`.
pub fn components(path: &str) -> (parts: Vec<String>)
    ensures
        texts(parts@) == components_of(path@),
{
    let pieces = split(path, '/');
    let ghost all = texts(pieces@);
    let mut parts: Vec<String> = Vec::new();
    proof {
        lemma_split_nonempty(path@, '/');
        assert(texts(parts@) =~= Seq::<Seq<char>>::empty());
        assert(all[0] == pieces@[0]@);
        assert(all.skip(1).take(0) =~= Seq::<Seq<char>>::empty());
    }
    if path.unicode_len() == 0 {
        proof {
            assert(split_text(path@, '/') =~= seq![Seq::<char>::empty()]);
            assert(all.skip(1) =~= Seq::<Seq<char>>::empty());
        }
        return parts;
    }
    let first: String = if pieces[0].as_str().unicode_len() == 0 {
        "/".to_owned()
    } else {
        pieces[0].clone()
    };
    parts.push(first);
    let ghost head = seq![first@];
    proof {
        lemma_texts_push(Seq::<String>::empty(), first);
        assert(texts(Seq::<String>::empty()) =~= Seq::<Seq<char>>::empty());
        assert(texts(parts@) =~= head + named_pieces(all.skip(1).take(0)));
    }
    let n: usize = pieces.len();
    let mut i: usize = 1;
    while i < n
        invariant
            1 <= i <= n,
            n == pieces.len(),
            all == texts(pieces@),
            texts(parts@) == head + named_pieces(all.skip(1).take(i - 1)),
        decreases n - i,
    {
        let piece: &str = pieces[i].as_str();
        let ghost seen = all.skip(1).take(i - 1);
        proof {
            assert(all.skip(1).take(i as int).drop_last() =~= seen);
            assert(all.skip(1).take(i as int).last() == pieces@[i as int]@);
        }
        if piece.unicode_len() > 0 && !same_text(piece, ".") {
            let ghost before = parts@;
            let part = pieces[i].clone();
            parts.push(part);
            proof {
                lemma_texts_push(before, part);
                assert((head + named_pieces(seen)).push(part@) =~= head + named_pieces(seen).push(
                    part@,
                ));
            }
        }
        i = i + 1;
    }
    proof {
        assert(all.skip(1).take(n - 1) =~= all.skip(1));
    }
    parts
}

/// The date folder of the file at `path`.
pub fn date_folder(path: &str) -> (folder: String)
    ensures
        folder@ == date_folder_of(path@),
{
    let parts = components(path);
    let ghost all = texts(parts@);
    proof {
        if parts.len() > 0 {
            assert(all[0] == parts@[0]@);
        }
        if parts.len() > 1 {
            assert(all[1] == parts@[1]@);
            assert(all.skip(1)[0] == all[1]);
        }
    }
    if parts.len() > 0 && same_text(parts[0].as_str(), DATA_ROOT) {
        if parts.len() > 1 {
            parts[1].clone()
        } else {
            String::new()
        }
    } else if parts.len() > 0 {
        parts[0].clone()
    } else {
        String::new()
    }
}

/// What a list of file entries holds, as plain values.
pub open spec fn file_views(files: Seq<FileItem>) -> Seq<FileItemView> {
    Seq::new(files.len(), |i: int| files[i]@)
}

/// Pushing an entry onto a list pushes its view onto the list's views.
pub proof fn lemma_file_views_push(files: Seq<FileItem>, item: FileItem)
    ensures
        file_views(files.push(item)) == file_views(files).push(item@),
{
    assert(file_views(files.push(item)) =~= file_views(files).push(item@));
}

/// A copy of a list of file entries.
pub fn copy_files(files: &Vec<FileItem>) -> (copy: Vec<FileItem>)
    ensures
        file_views(copy@) == file_views(files@),
{
    let mut copy: Vec<FileItem> = Vec::new();
    let n: usize = files.len();
    let mut i: usize = 0;
    while i < n
        invariant
            i <= n,
            n == files.len(),
            file_views(copy@) == file_views(files@).take(i as int),
        decreases n - i,
    {
        let ghost before = copy@;
        let item = files[i].clone();
        copy.push(item);
        proof {
            lemma_file_views_push(before, item);
            assert(file_views(files@).take(i + 1) =~= file_views(files@).take(i as int).push(
                files@[i as int]@,
            ));
        }
        i = i + 1;
    }
    proof {
        assert(file_views(files@).take(n as int) =~= file_views(files@));
    }
    copy
}

/// The files of one date folder.
#[derive(Debug, PartialEq, Eq)]
pub struct DateGroup {
    pub date_folder: String,
    pub files: Vec<FileItem>,
}

/// What a group holds, as plain values.
pub ghost struct DateGroupView {
    pub date_folder: Seq<char>,
    pub files: Seq<FileItemView>,
}

impl View for DateGroup {
    type V = DateGroupView;

    open spec fn view(&self) -> DateGroupView {
        DateGroupView { date_folder: self.date_folder@, files: file_views(self.files@) }
    }
}

impl Clone for DateGroup {
    fn clone(&self) -> (copy: DateGroup)
        ensures
            copy@ == self@,
    {
        DateGroup { date_folder: self.date_folder.clone(), files: copy_files(&self.files) }
    }
}

/// What a list of groups holds, as plain values.
pub open spec fn group_views(groups: Seq<DateGroup>) -> Seq<DateGroupView> {
    Seq::new(groups.len(), |i: int| groups[i]@)
}

/// The grouped view of the index: the files of each date folder, newest
/// first, and the time of the last full scan in milliseconds since the epoch.
#[derive(Debug, PartialEq, Eq)]
pub struct FileIndexResponse {
    pub by_date: Vec<DateGroup>,
    pub last_scan: i64,
}

/// What a grouped view holds, as plain values.
pub ghost struct FileIndexView {
    pub by_date: Seq<DateGroupView>,
    pub last_scan: int,
}

impl View for FileIndexResponse {
    type V = FileIndexView;

    open spec fn view(&self) -> FileIndexView {
        FileIndexView { by_date: group_views(self.by_date@), last_scan: self.last_scan as int }
    }
}

impl Clone for FileIndexResponse {
    fn clone(&self) -> (copy: FileIndexResponse)
        ensures
            copy@ == self@,
    {
        let mut groups: Vec<DateGroup> = Vec::new();
        let n: usize = self.by_date.len();
        let mut i: usize = 0;
        while i < n
            invariant
                i <= n,
                n == self.by_date.len(),
                group_views(groups@) == group_views(self.by_date@).take(i as int),
            decreases n - i,
        {
            let ghost before = groups@;
            let group = self.by_date[i].clone();
            groups.push(group);
            proof {
                assert(group_views(groups@) =~= group_views(before).push(group@));
                assert(group_views(self.by_date@).take(i + 1) =~= group_views(self.by_date@).take(
                    i as int,
                ).push(self.by_date@[i as int]@));
            }
            i = i + 1;
        }
        proof {
            assert(group_views(self.by_date@).take(n as int) =~= group_views(self.by_date@));
        }
        FileIndexResponse { by_date: groups, last_scan: self.last_scan }
    }
}

/// The entries of `files` whose date folder is `folder`, in the order of the list.
pub open spec fn in_folder(files: Seq<FileItemView>, folder: Seq<char>) -> Seq<FileItemView>
    decreases files.len(),
{
    if files.len() == 0 {
        Seq::<FileItemView>::empty()
    } else if files.last().date_folder == folder {
        in_folder(files.drop_last(), folder).push(files.last())
    } else {
        in_folder(files.drop_last(), folder)
    }
}

/// Where `item` goes in a list that is ordered newest first: before the
/// first entry that is strictly older, and so behind every entry of its own age.
pub open spec fn slot_for(sorted: Seq<FileItemView>, item: FileItemView) -> nat
    decreases sorted.len(),
{
    if sorted.len() == 0 || item.created_at.later_than(sorted[0].created_at) {
        0
    } else {
        1 + slot_for(sorted.drop_first(), item)
    }
}

/// `files` ordered by creation time, newest first; entries created at the
/// same instant keep the order that they have in `files`.
pub open spec fn newest_first(files: Seq<FileItemView>) -> Seq<FileItemView>
    decreases files.len(),
{
    if files.len() == 0 {
        Seq::<FileItemView>::empty()
    } else {
        let rest = newest_first(files.drop_last());
        rest.insert(slot_for(rest, files.last()) as int, files.last())
    }
}

/// The date folders that occur in `files`, each once, in the order in which
/// they first occur.
pub open spec fn folders_of(files: Seq<FileItemView>) -> Seq<Seq<char>>
    decreases files.len(),
{
    if files.len() == 0 {
        Seq::<Seq<char>>::empty()
    } else {
        let before = folders_of(files.drop_last());
        if before.contains(files.last().date_folder) {
            before
        } else {
            before.push(files.last().date_folder)
        }
    }
}

/// The group of one date folder: its entries, newest first.
pub open spec fn group_of(files: Seq<FileItemView>, folder: Seq<char>) -> DateGroupView {
    DateGroupView { date_folder: folder, files: newest_first(in_folder(files, folder)) }
}

/// The files grouped by date folder: one group for each folder that occurs.
pub open spec fn grouped(files: Seq<FileItemView>) -> Seq<DateGroupView> {
    let folders = folders_of(files);
    Seq::new(folders.len(), |k: int| group_of(files, folders[k]))
}

/// The grouped view of `files` after a scan at `last_scan`.
pub open spec fn snapshot_of(files: Seq<FileItemView>, last_scan: int) -> FileIndexView {
    FileIndexView { by_date: grouped(files), last_scan }
}

/// How many entries of `files` were created strictly after `t`.
pub open spec fn newer_count(files: Seq<FileItemView>, t: Timestamp) -> nat
    decreases files.len(),
{
    if files.len() == 0 {
        0
    } else if files.last().created_at.later_than(t) {
        newer_count(files.drop_last(), t) + 1
    } else {
        newer_count(files.drop_last(), t)
    }
}

/// The index of the first entry of `files` at `path`, or the length of `files` if there is none.
pub open spec fn first_at_path(files: Seq<FileItemView>, path: Seq<char>) -> nat
    decreases files.len(),
{
    if files.len() == 0 || files[0].path == path {
        0
    } else {
        1 + first_at_path(files.drop_first(), path)
    }
}

/// `files` without its first entry at `path`; `files` itself if it has none.
pub open spec fn without_path(files: Seq<FileItemView>, path: Seq<char>) -> Seq<FileItemView> {
    let i = first_at_path(files, path);
    if i < files.len() {
        files.remove(i as int)
    } else {
        files
    }
}

/// The entries of `found` that are not files of the job store: those whose
/// name does not hold the store's mark.
pub open spec fn indexable(found: Seq<FileItemView>) -> Seq<FileItemView>
    decreases found.len(),
{
    if found.len() == 0 {
        Seq::<FileItemView>::empty()
    } else if contains_text(found.last().name, STORE_FILE_MARK@) {
        indexable(found.drop_last())
    } else {
        indexable(found.drop_last()).push(found.last())
    }
}

/// `slot_for` is the index of the first entry that is strictly older than `item`.
pub proof fn lemma_slot_is(sorted: Seq<FileItemView>, item: FileItemView, p: int)
    requires
        0 <= p <= sorted.len(),
        forall|k: int| 0 <= k < p ==> !item.created_at.later_than(#[trigger] sorted[k].created_at),
        p < sorted.len() ==> item.created_at.later_than(sorted[p].created_at),
    ensures
        slot_for(sorted, item) == p,
    decreases p,
{
    if p > 0 {
        let rest = sorted.drop_first();
        assert(!item.created_at.later_than(sorted[0].created_at));
        assert forall|k: int| 0 <= k < p - 1 implies !item.created_at.later_than(
            #[trigger] rest[k].created_at,
        ) by {
            assert(rest[k] == sorted[k + 1]);
        }
        if p - 1 < rest.len() {
            assert(rest[p - 1] == sorted[p]);
        }
        lemma_slot_is(rest, item, p - 1);
    }
}

/// `first_at_path` is the index of the first entry at `path`.
pub proof fn lemma_first_at_path_is(files: Seq<FileItemView>, path: Seq<char>, p: int)
    requires
        0 <= p <= files.len(),
        forall|k: int| 0 <= k < p ==> (#[trigger] files[k]).path != path,
        p < files.len() ==> files[p].path == path,
    ensures
        first_at_path(files, path) == p,
    decreases p,
{
    if p > 0 {
        let rest = files.drop_first();
        assert(files[0].path != path);
        assert forall|k: int| 0 <= k < p - 1 implies (#[trigger] rest[k]).path != path by {
            assert(rest[k] == files[k + 1]);
        }
        if p - 1 < rest.len() {
            assert(rest[p - 1] == files[p]);
        }
        lemma_first_at_path_is(rest, path, p - 1);
    }
}

/// The date folders that occur in `files`, each once, in the order in which
/// they first occur.
fn distinct_folders(files: &Vec<FileItem>) -> (folders: Vec<String>)
    ensures
        texts(folders@) == folders_of(file_views(files@)),
{
    let mut folders: Vec<String> = Vec::new();
    let n: usize = files.len();
    let mut i: usize = 0;
    let ghost all = file_views(files@);
    proof {
        assert(all.take(0) =~= Seq::<FileItemView>::empty());
        assert(texts(folders@) =~= Seq::<Seq<char>>::empty());
    }
    while i < n
        invariant
            i <= n,
            n == files.len(),
            all == file_views(files@),
            texts(folders@) == folders_of(all.take(i as int)),
        decreases n - i,
    {
        let ghost before = texts(folders@);
        proof {
            assert(all.take(i + 1).drop_last() =~= all.take(i as int));
            assert(all.take(i + 1).last() == files@[i as int]@);
        }
        let m: usize = folders.len();
        let mut j: usize = 0;
        while j < m && folders[j] != files[i].date_folder
            invariant
                j <= m,
                m == folders.len(),
                i < files.len(),
                before == texts(folders@),
                forall|k: int| 0 <= k < j ==> before[k] != files@[i as int].date_folder@,
            decreases m - j,
        {
            proof {
                assert(before[j as int] == folders@[j as int]@);
            }
            j = j + 1;
        }
        if j == m {
            let ghost prev = folders@;
            let folder = files[i].date_folder.clone();
            folders.push(folder);
            proof {
                lemma_texts_push(prev, folder);
                assert(!before.contains(files@[i as int].date_folder@));
            }
        } else {
            proof {
                assert(before[j as int] == folders@[j as int]@);
                assert(before.contains(files@[i as int].date_folder@));
            }
        }
        i = i + 1;
    }
    proof {
        assert(all.take(n as int) =~= all);
    }
    folders
}

/// The entries of `files` in the date folder `folder`, newest first.
fn folder_group(files: &Vec<FileItem>, folder: &String) -> (group: DateGroup)
    ensures
        group@ == group_of(file_views(files@), folder@),
{
    let mut list: Vec<FileItem> = Vec::new();
    let n: usize = files.len();
    let mut i: usize = 0;
    let ghost all = file_views(files@);
    proof {
        assert(all.take(0) =~= Seq::<FileItemView>::empty());
        assert(file_views(list@) =~= Seq::<FileItemView>::empty());
    }
    while i < n
        invariant
            i <= n,
            n == files.len(),
            all == file_views(files@),
            file_views(list@) == newest_first(in_folder(all.take(i as int), folder@)),
        decreases n - i,
    {
        proof {
            assert(all.take(i + 1).drop_last() =~= all.take(i as int));
            assert(all.take(i + 1).last() == files@[i as int]@);
        }
        if files[i].date_folder == *folder {
            let ghost sorted = file_views(list@);
            let ghost chosen = in_folder(all.take(i as int), folder@);
            let m: usize = list.len();
            let mut p: usize = 0;
            while p < m && !files[i].created_at.is_after(&list[p].created_at)
                invariant
                    p <= m,
                    m == list.len(),
                    i < files.len(),
                    sorted == file_views(list@),
                    forall|k: int|
                        0 <= k < p ==> !files@[i as int]@.created_at.later_than(
                            #[trigger] sorted[k].created_at,
                        ),
                decreases m - p,
            {
                proof {
                    assert(sorted[p as int] == list@[p as int]@);
                }
                p = p + 1;
            }
            let item = files[i].clone();
            let ghost prev = list@;
            list.insert(p, item);
            proof {
                if p < m {
                    assert(sorted[p as int] == prev[p as int]@);
                }
                lemma_slot_is(sorted, item@, p as int);
                assert(file_views(list@) =~= sorted.insert(p as int, item@));
                assert(in_folder(all.take(i + 1), folder@) == chosen.push(item@));
                assert(chosen.push(item@).drop_last() =~= chosen);
            }
        }
        i = i + 1;
    }
    proof {
        assert(all.take(n as int) =~= all);
    }
    DateGroup { date_folder: folder.clone(), files: list }
}

/// The grouped view of `files` after a scan at `last_scan`.
fn build_snapshot(files: &Vec<FileItem>, last_scan: i64) -> (response: FileIndexResponse)
    ensures
        response@ == snapshot_of(file_views(files@), last_scan as int),
{
    let folders = distinct_folders(files);
    let mut groups: Vec<DateGroup> = Vec::new();
    let n: usize = folders.len();
    let mut k: usize = 0;
    let ghost all = file_views(files@);
    let ghost names = folders_of(all);
    while k < n
        invariant
            k <= n,
            n == folders.len(),
            all == file_views(files@),
            names == folders_of(all),
            names == texts(folders@),
            group_views(groups@) == grouped(all).take(k as int),
        decreases n - k,
    {
        let ghost before = groups@;
        let group = folder_group(files, &folders[k]);
        groups.push(group);
        proof {
            assert(names[k as int] == folders@[k as int]@);
            assert(group_views(groups@) =~= group_views(before).push(group@));
            assert(grouped(all).take(k + 1) =~= grouped(all).take(k as int).push(
                group_of(all, names[k as int]),
            ));
        }
        k = k + 1;
    }
    proof {
        assert(grouped(all).take(n as int) =~= grouped(all));
    }
    FileIndexResponse { by_date: groups, last_scan }
}

/// The index of the files under the data root.
///
/// Beside the flat list it keeps the grouped view that was last computed,
/// until the list changes: a view that is kept is always the view of the
/// list as it stands.
pub struct FileIndex {
    files: Vec<FileItem>,
    last_scan: i64,
    cached_index: Option<FileIndexResponse>,
}

impl FileIndex {
    #[verifier::type_invariant]
    spec fn coherent(self) -> bool {
        self.cached_index matches Some(kept) ==> kept@ == snapshot_of(
            file_views(self.files@),
            self.last_scan as int,
        )
    }

    /// The indexed files, in the order in which they were recorded.
    pub closed spec fn files(&self) -> Seq<FileItemView> {
        file_views(self.files@)
    }

    /// The time of the last full scan, in milliseconds since the epoch; 0 before the first.
    pub closed spec fn last_scan(&self) -> int {
        self.last_scan as int
    }

    /// Whether a grouped view is kept, so that the next `get_index` computes nothing.
    pub closed spec fn is_cached(&self) -> bool {
        self.cached_index is Some
    }

    /// An index without files that was never scanned.
    pub fn new() -> (index: FileIndex)
        ensures
            index.files() == Seq::<FileItemView>::empty(),
            index.last_scan() == 0,
            !index.is_cached(),
    {
        let index = FileIndex { files: Vec::new(), last_scan: 0, cached_index: None };
        proof {
            assert(index.files() =~= Seq::<FileItemView>::empty());
        }
        index
    }

    /// Installs the result of a full scan that was made at `scanned_at`, in
    /// milliseconds since the epoch: `found` without the files of the job
    /// store takes the place of the list, and the grouped view is dropped.
    pub fn install(&mut self, found: Vec<FileItem>, scanned_at: i64)
        ensures
            final(self).files() == indexable(file_views(found@)),
            final(self).last_scan() == scanned_at,
            !final(self).is_cached(),
    {
        let mut kept: Vec<FileItem> = Vec::new();
        let n: usize = found.len();
        let mut i: usize = 0;
        let ghost all = file_views(found@);
        proof {
            assert(all.take(0) =~= Seq::<FileItemView>::empty());
            assert(file_views(kept@) =~= Seq::<FileItemView>::empty());
        }
        while i < n
            invariant
                i <= n,
                n == found.len(),
                all == file_views(found@),
                file_views(kept@) == indexable(all.take(i as int)),
            decreases n - i,
        {
            proof {
                assert(all.take(i + 1).drop_last() =~= all.take(i as int));
                assert(all.take(i + 1).last() == found@[i as int]@);
            }
            if !contains(found[i].name.as_str(), STORE_FILE_MARK) {
                let ghost before = kept@;
                let item = found[i].clone();
                kept.push(item);
                proof {
                    lemma_file_views_push(before, item);
                }
            }
            i = i + 1;
        }
        proof {
            assert(all.take(n as int) =~= all);
        }
        self.cached_index = None;
        self.files = kept;
        self.last_scan = scanned_at;
    }

    /// Installs the result of a full scan that ends now: `found` without the
    /// files of the job store takes the place of the list, and the grouped
    /// view is dropped.
    pub fn build_index(&mut self, found: Vec<FileItem>)
        ensures
            final(self).files() == indexable(file_views(found@)),
            !final(self).is_cached(),
    {
        self.install(found, now_millis());
    }

    /// The grouped view of the index. It is computed from the list only if
    /// the list has changed since the view was last asked for.
    pub fn get_index(&mut self) -> (response: FileIndexResponse)
        ensures
            response@ == snapshot_of(old(self).files(), old(self).last_scan()),
            final(self).files() == old(self).files(),
            final(self).last_scan() == old(self).last_scan(),
            final(self).is_cached(),
    {
        proof {
            use_type_invariant(&*self);
        }
        if let Some(kept) = &self.cached_index {
            return kept.clone();
        }
        let response = build_snapshot(&self.files, self.last_scan);
        self.cached_index = Some(response.clone());
        response
    }

    /// Records one more file at the end of the list and drops the grouped view.
    pub fn add_file(&mut self, item: FileItem)
        ensures
            final(self).files() == old(self).files().push(item@),
            final(self).last_scan() == old(self).last_scan(),
            !final(self).is_cached(),
    {
        self.cached_index = None;
        let mut list: Vec<FileItem> = Vec::new();
        core::mem::swap(&mut self.files, &mut list);
        let ghost before = list@;
        list.push(item);
        core::mem::swap(&mut self.files, &mut list);
        proof {
            lemma_file_views_push(before, item);
        }
    }

    /// Removes the first entry at `path`, if there is one, and drops the grouped view.
    pub fn remove_file(&mut self, path: &str)
        ensures
            final(self).files() == without_path(old(self).files(), path@),
            final(self).last_scan() == old(self).last_scan(),
            !final(self).is_cached(),
    {
        self.cached_index = None;
        let mut list: Vec<FileItem> = Vec::new();
        core::mem::swap(&mut self.files, &mut list);
        let n: usize = list.len();
        let ghost all = file_views(list@);
        let mut p: usize = 0;
        while p < n && !same_text(list[p].path.as_str(), path)
            invariant
                p <= n,
                n == list.len(),
                all == file_views(list@),
                forall|k: int| 0 <= k < p ==> (#[trigger] all[k]).path != path@,
            decreases n - p,
        {
            proof {
                assert(all[p as int] == list@[p as int]@);
            }
            p = p + 1;
        }
        proof {
            if p < n {
                assert(all[p as int] == list@[p as int]@);
            }
            lemma_first_at_path_is(all, path@, p as int);
        }
        if p < n {
            list.remove(p);
            proof {
                assert(file_views(list@) =~= all.remove(p as int));
            }
        }
        core::mem::swap(&mut self.files, &mut list);
    }

    /// How many indexed files were created strictly after `timestamp`.
    pub fn count_files_after(&self, timestamp: Timestamp) -> (count: usize)
        ensures
            count == newer_count(self.files(), timestamp),
    {
        let n: usize = self.files.len();
        let ghost all = file_views(self.files@);
        let mut count: usize = 0;
        let mut i: usize = 0;
        proof {
            assert(all.take(0) =~= Seq::<FileItemView>::empty());
        }
        while i < n
            invariant
                i <= n,
                n == self.files.len(),
                all == file_views(self.files@),
                count == newer_count(all.take(i as int), timestamp),
                count <= i,
            decreases n - i,
        {
            proof {
                assert(all.take(i + 1).drop_last() =~= all.take(i as int));
                assert(all.take(i + 1).last() == self.files@[i as int]@);
            }
            if self.files[i].created_at.is_after(&timestamp) {
                count = count + 1;
            }
            i = i + 1;
        }
        proof {
            assert(all.take(n as int) =~= all);
        }
        count
    }
}

/// The bytes that the entries of `files` take together.
pub open spec fn total_size(files: Seq<FileItemView>) -> nat
    decreases files.len(),
{
    if files.len() == 0 {
        0
    } else {
        total_size(files.drop_last()) + files.last().size
    }
}

/// What the files under the data root take on disk: the bytes of `found`
/// without the files of the job store, or `u64::MAX` if they are more, and
/// the number of those files.
pub fn disk_usage(found: &Vec<FileItem>) -> (usage: (u64, usize))
    ensures
        usage.0 == if total_size(indexable(file_views(found@))) > u64::MAX {
            u64::MAX as nat
        } else {
            total_size(indexable(file_views(found@)))
        },
        usage.1 == indexable(file_views(found@)).len(),
{
    let n: usize = found.len();
    let ghost all = file_views(found@);
    let mut total: u64 = 0;
    let mut count: usize = 0;
    let mut i: usize = 0;
    proof {
        assert(all.take(0) =~= Seq::<FileItemView>::empty());
    }
    while i < n
        invariant
            i <= n,
            n == found.len(),
            all == file_views(found@),
            count == indexable(all.take(i as int)).len(),
            count <= i,
            total == if total_size(indexable(all.take(i as int))) > u64::MAX {
                u64::MAX as nat
            } else {
                total_size(indexable(all.take(i as int)))
            },
        decreases n - i,
    {
        proof {
            assert(all.take(i + 1).drop_last() =~= all.take(i as int));
            assert(all.take(i + 1).last() == found@[i as int]@);
        }
        if !contains(found[i].name.as_str(), STORE_FILE_MARK) {
            let ghost kept = indexable(all.take(i as int));
            proof {
                assert(kept.push(found@[i as int]@).drop_last() =~= kept);
            }
            count = count + 1;
            total = if found[i].size > u64::MAX - total {
                u64::MAX
            } else {
                total + found[i].size
            };
        }
        i = i + 1;
    }
    proof {
        assert(all.take(n as int) =~= all);
    }
    (total, count)
}

/// The folder for today's downloads under the data root: `data/` and then
/// the date in the machine's time zone, as year, month and day.
pub fn get_today_folder() -> (folder: String)
    ensures
        exists|day: Seq<char>| folder@ == #[trigger] joined(DATA_ROOT@, day),
{
    let day = local_today();
    let folder = join_path(DATA_ROOT, day.as_str());
    proof {
        assert(folder@ == joined(DATA_ROOT@, day@));
    }
    folder
}

/// Whether no entry of `list` is followed by a later one.
pub open spec fn is_newest_first(list: Seq<FileItemView>) -> bool {
    forall|i: int, j: int|
        0 <= i < j < list.len() ==> !(#[trigger] list[j]).created_at.later_than(
            (#[trigger] list[i]).created_at,
        )
}

/// The slot for an entry is a position of the list, no entry before it is
/// older than the entry, and the entry at it, if there is one, is older.
pub proof fn lemma_slot_bounds(sorted: Seq<FileItemView>, item: FileItemView)
    ensures
        slot_for(sorted, item) <= sorted.len(),
        forall|k: int|
            0 <= k < slot_for(sorted, item) ==> !item.created_at.later_than(
                (#[trigger] sorted[k]).created_at,
            ),
        slot_for(sorted, item) < sorted.len() ==> item.created_at.later_than(
            sorted[slot_for(sorted, item) as int].created_at,
        ),
    decreases sorted.len(),
{
    if !(sorted.len() == 0 || item.created_at.later_than(sorted[0].created_at)) {
        let rest = sorted.drop_first();
        lemma_slot_bounds(rest, item);
        assert forall|k: int| 0 <= k < slot_for(sorted, item) implies !item.created_at.later_than(
            (#[trigger] sorted[k]).created_at,
        ) by {
            if k > 0 {
                assert(sorted[k] == rest[k - 1]);
            }
        }
        if slot_for(sorted, item) < sorted.len() {
            assert(sorted[slot_for(sorted, item) as int] == rest[slot_for(rest, item) as int]);
        }
    }
}

/// The files ordered newest first are in that order.
pub proof fn lemma_newest_first_is_ordered(files: Seq<FileItemView>)
    ensures
        is_newest_first(newest_first(files)),
        newest_first(files).len() == files.len(),
    decreases files.len(),
{
    if files.len() > 0 {
        let rest = newest_first(files.drop_last());
        let item = files.last();
        lemma_newest_first_is_ordered(files.drop_last());
        lemma_slot_bounds(rest, item);
        let p = slot_for(rest, item) as int;
        let all = rest.insert(p, item);
        assert forall|i: int, j: int| 0 <= i < j < all.len() implies !(#[trigger] all[j])
            .created_at.later_than((#[trigger] all[i]).created_at) by {
            if j < p {
                assert(all[i] == rest[i] && all[j] == rest[j]);
            } else if j == p {
                assert(all[i] == rest[i]);
            } else if i < p {
                assert(all[i] == rest[i] && all[j] == rest[j - 1]);
            } else if i == p {
                assert(all[j] == rest[j - 1]);
                if j - 1 > p {
                    assert(!rest[j - 1].created_at.later_than(rest[p].created_at));
                }
            } else {
                assert(all[i] == rest[i - 1] && all[j] == rest[j - 1]);
            }
        }
    }
}

/// The files ordered newest first are the same files, each as often as before.
pub proof fn lemma_newest_first_keeps_files(files: Seq<FileItemView>)
    ensures
        newest_first(files).to_multiset() == files.to_multiset(),
    decreases files.len(),
{
    broadcast use vstd::seq_lib::group_to_multiset_ensures;

    if files.len() > 0 {
        let rest = newest_first(files.drop_last());
        let item = files.last();
        lemma_newest_first_keeps_files(files.drop_last());
        lemma_slot_bounds(rest, item);
        let p = slot_for(rest, item) as int;
        vstd::seq_lib::to_multiset_insert(rest, p, item);
        assert(files.drop_last().push(item) =~= files);
    } else {
        assert(newest_first(files) =~= files);
    }
}

/// The entries of one date folder are the entries of the list that lie in it.
pub proof fn lemma_in_folder_holds(files: Seq<FileItemView>, folder: Seq<char>, item: FileItemView)
    ensures
        in_folder(files, folder).contains(item) <==> files.contains(item) && item.date_folder
            == folder,
    decreases files.len(),
{
    if files.len() > 0 {
        let rest = files.drop_last();
        let chosen = in_folder(rest, folder);
        lemma_in_folder_holds(rest, folder, item);
        assert(files[files.len() - 1] == files.last());
        if rest.contains(item) {
            let k = choose|k: int| 0 <= k < rest.len() && rest[k] == item;
            assert(files[k] == item);
        }
        if files.contains(item) && files.last() != item {
            let k = choose|k: int| 0 <= k < files.len() && files[k] == item;
            assert(rest[k] == item);
        }
        if files.last().date_folder == folder {
            let all = chosen.push(files.last());
            assert(all[all.len() - 1] == files.last());
            if chosen.contains(item) {
                let k = choose|k: int| 0 <= k < chosen.len() && chosen[k] == item;
                assert(all[k] == item);
            }
            if all.contains(item) && files.last() != item {
                let k = choose|k: int| 0 <= k < all.len() && all[k] == item;
                assert(chosen[k] == item);
            }
        }
    }
}

/// The date folders of a list are those of its entries, and none is named twice.
pub proof fn lemma_folders_are_distinct(files: Seq<FileItemView>)
    ensures
        folders_of(files).no_duplicates(),
        forall|k: int| 0 <= k < files.len() ==> folders_of(files).contains(
            (#[trigger] files[k]).date_folder,
        ),
    decreases files.len(),
{
    if files.len() > 0 {
        let rest = files.drop_last();
        let before = folders_of(rest);
        let after = folders_of(files);
        lemma_folders_are_distinct(rest);
        assert forall|k: int| 0 <= k < files.len() implies after.contains(
            (#[trigger] files[k]).date_folder,
        ) by {
            if k < rest.len() {
                assert(rest[k] == files[k]);
                let i = choose|i: int| 0 <= i < before.len() && before[i] == rest[k].date_folder;
                assert(after[i] == files[k].date_folder);
            } else if before.contains(files.last().date_folder) {
            } else {
                assert(after[after.len() - 1] == files.last().date_folder);
            }
        }
    }
}

/// A file that is added is listed at once: the grouped view of the list
/// with the file at its end has a group for the file's date folder, and the
/// group holds the file. It holds it in first place if every entry that the
/// list had in that folder is older.
pub proof fn lemma_added_file_is_listed(files: Seq<FileItemView>, item: FileItemView)
    ensures
        exists|k: int|
            0 <= k < grouped(files.push(item)).len() && (#[trigger] grouped(
                files.push(item),
            )[k]).date_folder == item.date_folder && grouped(files.push(item))[k].files.contains(
                item,
            ) && ((forall|i: int|
                0 <= i < files.len() && (#[trigger] files[i]).date_folder == item.date_folder
                    ==> item.created_at.later_than(files[i].created_at)) ==> grouped(
                files.push(item),
            )[k].files[0] == item),
{
    let all = files.push(item);
    let folders = folders_of(all);
    lemma_folders_are_distinct(all);
    assert(all[files.len() as int] == item);
    assert(folders.contains(item.date_folder));
    let k = choose|k: int| 0 <= k < folders.len() && folders[k] == item.date_folder;
    let group = grouped(all)[k];
    assert(group == group_of(all, item.date_folder));
    assert(all.drop_last() =~= files);
    let chosen = in_folder(files, item.date_folder);
    let sorted = newest_first(chosen);
    assert(in_folder(all, item.date_folder) == chosen.push(item));
    assert(chosen.push(item).drop_last() =~= chosen);
    lemma_slot_bounds(sorted, item);
    let p = slot_for(sorted, item) as int;
    assert(group.files == sorted.insert(p, item));
    assert(group.files[p] == item);
    if forall|i: int|
        0 <= i < files.len() && (#[trigger] files[i]).date_folder == item.date_folder
            ==> item.created_at.later_than(files[i].created_at) {
        if p > 0 {
            lemma_newest_first_keeps_files(chosen);
            broadcast use vstd::seq_lib::group_to_multiset_ensures;

            assert(sorted.contains(sorted[0]));
            assert(sorted.to_multiset().count(sorted[0]) > 0);
            assert(chosen.to_multiset().count(sorted[0]) > 0);
            assert(chosen.contains(sorted[0]));
            lemma_in_folder_holds(files, item.date_folder, sorted[0]);
            let i = choose|i: int| 0 <= i < files.len() && files[i] == sorted[0];
            assert(item.created_at.later_than(files[i].created_at));
        }
        assert(p == 0);
    }
}

/// A file that is added counts as newer than an instant exactly if it was
/// created after it: the count of the newer files grows by one then, and
/// stays as it is otherwise.
pub proof fn lemma_added_file_counts(files: Seq<FileItemView>, item: FileItemView, t: Timestamp)
    ensures
        newer_count(files.push(item), t) == newer_count(files, t) + if item.created_at.later_than(
            t,
        ) {
            1nat
        } else {
            0nat
        },
{
    assert(files.push(item).drop_last() =~= files);
}

/// No file counts as newer than an instant that none was created after.
pub proof fn lemma_nothing_newer(files: Seq<FileItemView>, t: Timestamp)
    requires
        forall|i: int| 0 <= i < files.len() ==> !(#[trigger] files[i]).created_at.later_than(t),
    ensures
        newer_count(files, t) == 0,
    decreases files.len(),
{
    if files.len() > 0 {
        let rest = files.drop_last();
        assert forall|i: int| 0 <= i < rest.len() implies !(#[trigger] rest[i])
            .created_at.later_than(t) by {
            assert(rest[i] == files[i]);
        }
        lemma_nothing_newer(rest, t);
        assert(files[files.len() - 1] == files.last());
    }
}

} // verus!
