//! Zip and cbz archives: which of their entries are pages, and reading a
//! page's bytes when it is first shown.
use vstd::prelude::*;
use vstd::utf8::{valid_utf8, decode_utf8};
use std::io::Cursor;
use zip::ZipArchive;
use std::io::Read;
use crate::file::{is_image, is_hidden_entry, is_image_path, is_hidden_path};
use crate::file::path::{file_name, path_file_name};
use crate::file::sort::{sort_path, sorted_keys, KeyOrder};
use crate::file::path_order::{path_order, path_order_chars, path_parts, lemma_path_order_total};
use crate::text::chars_of;

verus! {

#[verifier::external_type_specification]
#[verifier::external_body]
#[verifier::reject_recursive_types(T)]
pub struct ExCursor<T>(Cursor<T>);

#[verifier::external_type_specification]
#[verifier::external_body]
#[verifier::reject_recursive_types(R)]
pub struct ExZipArchive<R>(ZipArchive<R>);

/// What the archive holds, entry by entry, as `zip::ZipArchive` shows it:
/// whether `by_index` opens the entry, whether it is a directory, its raw
/// name, and its decompressed bytes (`None` when opening or reading fails).
pub uninterp spec fn zip_contents(archive: ZipArchive<Cursor<Vec<u8>>>) -> Seq<
    (bool, bool, Seq<u8>, Option<Seq<u8>>),
>;

/// What `zip::ZipArchive::new` finds in a buffer: `None` when it refuses it.
pub uninterp spec fn zip_parse(buffer: Seq<u8>) -> Option<Seq<(bool, bool, Seq<u8>, Option<Seq<u8>>)>>;

/// What `encoding_rs::SHIFT_JIS.decode` makes of bytes: the text, and whether
/// malformed sequences were replaced.
pub uninterp spec fn shift_jis_decode(raw: Seq<u8>) -> (Seq<char>, bool);

/// What `String::from_utf8_lossy` makes of bytes.
pub uninterp spec fn utf8_lossy(raw: Seq<u8>) -> Seq<char>;

/// Opens a zip archive held in memory (`zip::ZipArchive::new`). The contents
/// of the archive are what the crate finds in the buffer; the text of the
/// error is the crate's message and is not stated.
#[verifier::external_body]
fn zip_open(buffer: Vec<u8>) -> (res: Result<ZipArchive<Cursor<Vec<u8>>>, String>)
    ensures
        res is Ok <==> zip_parse(buffer@) is Some,
        res matches Ok(a) ==> zip_contents(a) == zip_parse(buffer@).unwrap(),
{
    ZipArchive::new(Cursor::new(buffer)).map_err(|e| e.to_string())
}

/// The number of entries of an archive (`zip::ZipArchive::len`).
#[verifier::external_body]
fn zip_len(archive: &ZipArchive<Cursor<Vec<u8>>>) -> (res: usize)
    ensures
        res == zip_contents(*archive).len(),
{
    archive.len()
}

/// Opens entry `i` (`zip::ZipArchive::by_index`) and gives whether it is a
/// directory (`ZipFile::is_dir`) and its raw name (`ZipFile::name_raw`). The
/// contents of the archive do not change.
#[verifier::external_body]
fn zip_entry(archive: &mut ZipArchive<Cursor<Vec<u8>>>, i: usize) -> (res: Result<
    (bool, Vec<u8>),
    String,
>)
    requires
        i < zip_contents(*old(archive)).len(),
    ensures
        zip_contents(*final(archive)) == zip_contents(*old(archive)),
        res is Ok <==> zip_contents(*old(archive))[i as int].0,
        res matches Ok((is_dir, name)) ==> is_dir == zip_contents(*old(archive))[i as int].1
            && name@ == zip_contents(*old(archive))[i as int].2,
{
    let file = archive.by_index(i).map_err(|e| e.to_string())?;
    Ok((file.is_dir(), file.name_raw().to_vec()))
}

/// Reads at most `limit` bytes from the start of entry `i` (`by_index`, then
/// `Read::take` and `read_to_end`). When the whole entry can be read, this
/// read succeeds and gives its first bytes: it runs the same decompression on
/// a prefix of the data, and the crate's checks (declared size, checksum at
/// the end) only fail where a read of the whole entry fails too. Whether it
/// succeeds when the whole entry cannot be read is not stated.
#[verifier::external_body]
fn zip_entry_head(archive: &mut ZipArchive<Cursor<Vec<u8>>>, i: usize, limit: u64) -> (res: Result<
    Vec<u8>,
    String,
>)
    requires
        i < zip_contents(*old(archive)).len(),
    ensures
        zip_contents(*final(archive)) == zip_contents(*old(archive)),
        zip_contents(*old(archive))[i as int].0 && zip_contents(*old(archive))[i as int].3 is Some
            ==> res is Ok,
        res matches Ok(h) ==> {
            &&& zip_contents(*old(archive))[i as int].0
            &&& h@.len() <= limit
            &&& zip_contents(*old(archive))[i as int].3 matches Some(d) ==> h@ == d.take(
                if d.len() < limit {
                    d.len() as int
                } else {
                    limit as int
                },
            )
        },
{
    let mut file = archive.by_index(i).map_err(|e| e.to_string())?;
    let mut head = Vec::new();
    (&mut file).take(limit).read_to_end(&mut head).map_err(|e| e.to_string())?;
    Ok(head)
}

/// Reads the whole of entry `i` (`by_index`, then `read_to_end`).
#[verifier::external_body]
fn zip_entry_data(archive: &mut ZipArchive<Cursor<Vec<u8>>>, i: usize) -> (res: Result<
    Vec<u8>,
    String,
>)
    requires
        i < zip_contents(*old(archive)).len(),
    ensures
        zip_contents(*final(archive)) == zip_contents(*old(archive)),
        res is Ok <==> zip_contents(*old(archive))[i as int].3 is Some,
        res matches Ok(d) ==> d@ == zip_contents(*old(archive))[i as int].3.unwrap(),
{
    let mut file = archive.by_index(i).map_err(|e| e.to_string())?;
    let mut data = Vec::new();
    file.read_to_end(&mut data).map_err(|e| e.to_string())?;
    Ok(data)
}

/// Decodes UTF-8 (`std::str::from_utf8`): `None` unless the bytes are valid
/// UTF-8.
#[verifier::external_body]
fn utf8_decode(raw: &[u8]) -> (res: Option<String>)
    ensures
        res is Some <==> valid_utf8(raw@),
        res matches Some(s) ==> s@ == decode_utf8(raw@),
{
    std::str::from_utf8(raw).ok().map(|s| s.to_string())
}

/// Decodes Shift_JIS (`encoding_rs::SHIFT_JIS.decode`, which also follows a
/// byte order mark).
#[verifier::external_body]
fn sjis_decode(raw: &[u8]) -> (res: (String, bool))
    ensures
        (res.0@, res.1) == shift_jis_decode(raw@),
{
    let (text, _, had_errors) = encoding_rs::SHIFT_JIS.decode(raw);
    (text.into_owned(), had_errors)
}

/// Decodes UTF-8, replacing malformed sequences (`String::from_utf8_lossy`).
#[verifier::external_body]
fn utf8_decode_lossy(raw: &[u8]) -> (res: String)
    ensures
        res@ == utf8_lossy(raw@),
{
    String::from_utf8_lossy(raw).into_owned()
}

/// The text of an entry name: UTF-8 when it is valid UTF-8, else Shift_JIS
/// when that decodes without error, else UTF-8 with replacement characters.
pub open spec fn decoded_name(raw: Seq<u8>) -> Seq<char> {
    if valid_utf8(raw) {
        decode_utf8(raw)
    } else if !shift_jis_decode(raw).1 {
        shift_jis_decode(raw).0
    } else {
        utf8_lossy(raw)
    }
}

/// Decodes the raw name of an entry.
pub fn decode_raw(raw: &[u8]) -> (res: String)
    ensures
        res@ == decoded_name(raw@),
{
    if let Some(name) = utf8_decode(raw) {
        return name;
    }
    let (decoded, errors) = sjis_decode(raw);
    if !errors {
        return decoded;
    }
    utf8_decode_lossy(raw)
}

/// Reads the width and height of an image from its first bytes
/// (`image::ImageReader::new` on them, `with_guessed_format`, then
/// `into_dimensions`). The format guess consults hooks that a program may
/// register at run time, so nothing is stated of the result.
#[verifier::external_body]
fn header_dimensions(header: Vec<u8>) -> (res: Option<(u32, u32)>) {
    image::ImageReader::new(Cursor::new(header)).with_guessed_format().ok()?.into_dimensions().ok()
}

/// How many bytes of a page are read to find its width and height (large
/// enough for a JPEG with a large EXIF block).
pub const HEADER_BYTES: u64 = 262144;

/// The first bytes of an entry that a page's width and height are read
/// from: `HEADER_BYTES` of them, or all when the entry is shorter.
pub open spec fn page_head(data: Seq<u8>) -> Seq<u8> {
    data.take(
        if data.len() < HEADER_BYTES {
            data.len() as int
        } else {
            HEADER_BYTES as int
        },
    )
}

/// Law: the bytes a page's width and height are read from are the first
/// bytes of its entry, as many as it has up to 256 KiB: whatever stands in
/// the first 256 KiB of the entry, a size marker among it, is read.
pub proof fn lemma_page_head_covers(data: Seq<u8>, i: int)
    requires
        0 <= i < data.len(),
        i < 262144,
    ensures
        page_head(data).len() == if data.len() < 262144 {
            data.len()
        } else {
            262144
        },
        i < page_head(data).len(),
        page_head(data)[i] == data[i],
{
}

/// A page of an archive.
pub struct ArchiveFile {
    /// The index of the entry in the archive.
    index: usize,
    /// The file name of the entry.
    file_name: String,
    /// The path of the entry inside the archive.
    relative_path: String,
    /// The width of the image, 0 when unknown.
    width: u32,
    /// The height of the image, 0 when unknown.
    height: u32,
    /// The bytes of the entry; empty until they are read.
    bytes: Vec<u8>,
    /// The first bytes of the entry that the width and height were read
    /// from; empty when the size was given.
    header: Ghost<Seq<u8>>,
}

/// What a page of an archive holds.
pub ghost struct ArchiveFileView {
    pub index: usize,
    pub file_name: Seq<char>,
    pub relative_path: Seq<char>,
    pub width: u32,
    pub height: u32,
    pub bytes: Seq<u8>,
    pub header: Seq<u8>,
}

impl View for ArchiveFile {
    type V = ArchiveFileView;

    closed spec fn view(&self) -> ArchiveFileView {
        ArchiveFileView {
            index: self.index,
            file_name: self.file_name@,
            relative_path: self.relative_path@,
            width: self.width,
            height: self.height,
            bytes: self.bytes@,
            header: self.header@,
        }
    }
}

impl Clone for ArchiveFile {
    fn clone(&self) -> (res: Self)
        ensures
            res@ == self@,
    {
        ArchiveFile {
            index: self.index,
            file_name: self.file_name.clone(),
            relative_path: self.relative_path.clone(),
            width: self.width,
            height: self.height,
            bytes: self.bytes.clone(),
            header: self.header,
        }
    }
}

/// The width and height of a page from what reading its header gave: the
/// size read, or 0 by 0 when it could not be read.
pub open spec fn page_size(dims: Option<(u32, u32)>) -> (u32, u32) {
    match dims {
        Some(d) => d,
        None => (0, 0),
    }
}

impl ArchiveFile {
    /// A page whose bytes are not read yet: entry `index`, its file name and
    /// path in the archive, and its size from what reading its header gave.
    pub fn new(index: usize, file_name: String, relative_path: String, dims: Option<(u32, u32)>) -> (res: Self)
        ensures
            res@ == (ArchiveFileView {
                index,
                file_name: file_name@,
                relative_path: relative_path@,
                width: page_size(dims).0,
                height: page_size(dims).1,
                bytes: Seq::empty(),
                header: Seq::empty(),
            }),
    {
        let (width, height) = match dims {
            Some(d) => d,
            None => (0, 0),
        };
        ArchiveFile {
            index,
            file_name,
            relative_path,
            width,
            height,
            bytes: Vec::new(),
            header: Ghost(Seq::empty()),
        }
    }

    /// The index of the entry in the archive.
    pub fn index(&self) -> (res: &usize)
        ensures
            *res == self@.index,
    {
        &self.index
    }

    /// The file name of the entry.
    pub fn file_name(&self) -> (res: &String)
        ensures
            res@ == self@.file_name,
    {
        &self.file_name
    }

    /// The path of the entry inside the archive.
    pub fn relative_path(&self) -> (res: &String)
        ensures
            res@ == self@.relative_path,
    {
        &self.relative_path
    }

    /// The width and height of the image, 0 when unknown.
    pub fn size(&self) -> (res: (u32, u32))
        ensures
            res == (self@.width, self@.height),
    {
        (self.width, self.height)
    }

    /// The bytes of the entry, empty until they are read.
    pub fn bytes(&self) -> (res: &Vec<u8>)
        ensures
            res@ == self@.bytes,
    {
        &self.bytes
    }
}

/// An entry is a page: it opens, is not a directory, and its decoded name
/// names an image and has no hidden component.
pub open spec fn is_page_entry(e: (bool, bool, Seq<u8>, Option<Seq<u8>>)) -> bool {
    &&& e.0
    &&& !e.1
    &&& !is_hidden_path(decoded_name(e.2))
    &&& is_image_path(decoded_name(e.2))
}

/// The file name of a page: the file name of its path, or the whole path when
/// that has none.
pub open spec fn page_file_name(relative_path: Seq<char>) -> Seq<char> {
    match path_file_name(relative_path) {
        Some(n) => n,
        None => relative_path,
    }
}

/// The pages among the first `n` entries, in archive order: entry index and
/// decoded path.
pub open spec fn pages_upto(c: Seq<(bool, bool, Seq<u8>, Option<Seq<u8>>)>, n: int) -> Seq<
    (usize, Seq<char>),
>
    decreases n,
{
    if n <= 0 {
        Seq::empty()
    } else if is_page_entry(c[n - 1]) {
        pages_upto(c, n - 1).push(((n - 1) as usize, decoded_name(c[n - 1].2)))
    } else {
        pages_upto(c, n - 1)
    }
}

/// The index of the first file whose path has the components of `p` (or the
/// length).
pub open spec fn first_with_path(files: Seq<ArchiveFileView>, p: Seq<char>) -> int
    decreases files.len(),
{
    if files.len() == 0 {
        0
    } else if path_parts(files[0].relative_path) == path_parts(p) {
        0
    } else {
        1 + first_with_path(files.drop_first(), p)
    }
}

/// The paths of the files, in order.
pub open spec fn file_paths(files: Seq<ArchiveFileView>) -> Seq<Seq<char>> {
    files.map_values(|f: ArchiveFileView| f.relative_path)
}

/// The files reordered as `Archive::sort` does: the paths sorted by
/// `sort_path`, each replaced by the first file whose path is the same path
/// (has the same components).
pub open spec fn sorted_files(files: Seq<ArchiveFileView>) -> Seq<ArchiveFileView> {
    let paths = sorted_keys(file_paths(files), KeyOrder::Natural);
    Seq::new(paths.len(), |k: int| files[first_with_path(files, paths[k])])
}

/// What identifies a page: entry index, path, file name.
pub open spec fn file_id(f: ArchiveFileView) -> (usize, Seq<char>, Seq<char>) {
    (f.index, f.relative_path, f.file_name)
}

/// The identities of pages, in order.
pub open spec fn file_ids(files: Seq<ArchiveFileView>) -> Seq<(usize, Seq<char>, Seq<char>)> {
    files.map_values(|f: ArchiveFileView| file_id(f))
}

/// The identity of a page found in an archive.
pub open spec fn page_id(p: (usize, Seq<char>)) -> (usize, Seq<char>, Seq<char>) {
    (p.0, p.1, page_file_name(p.1))
}

/// No page of `files` has had its bytes read.
pub open spec fn all_unread(files: Seq<ArchiveFileView>) -> bool {
    forall|k: int| 0 <= k < files.len() ==> (#[trigger] files[k]).bytes.len() == 0
}

proof fn lemma_first_with_path(files: Seq<ArchiveFileView>, p: Seq<char>, j: int)
    requires
        0 <= j < files.len(),
        path_parts(files[j].relative_path) == path_parts(p),
        forall|m: int| 0 <= m < j ==> path_parts((#[trigger] files[m]).relative_path) != path_parts(p),
    ensures
        first_with_path(files, p) == j,
    decreases j,
{
    if j > 0 {
        assert forall|m: int| 0 <= m < j - 1 implies path_parts(
            (#[trigger] files.drop_first()[m]).relative_path,
        ) != path_parts(p) by {
            assert(files.drop_first()[m] == files[m + 1]);
        }
        lemma_first_with_path(files.drop_first(), p, j - 1);
    }
}

/// A zip or cbz archive and its pages.
pub struct Archive {
    /// The opened archive.
    archive: Option<ZipArchive<Cursor<Vec<u8>>>>,
    /// The pages.
    files: Vec<ArchiveFile>,
    /// The number of entries of the archive.
    len: usize,
}

impl Archive {
    /// The pages.
    pub closed spec fn spec_files(&self) -> Seq<ArchiveFileView> {
        self.files@.map_values(|f: ArchiveFile| f@)
    }

    /// What the opened archive holds; `None` before one is opened.
    pub closed spec fn spec_contents(&self) -> Option<Seq<(bool, bool, Seq<u8>, Option<Seq<u8>>)>> {
        match self.archive {
            Some(a) => Some(zip_contents(a)),
            None => None,
        }
    }

    /// The number of entries of the opened archive.
    pub closed spec fn spec_len(&self) -> usize {
        self.len
    }

    /// Every page names an entry of the opened archive, and a page whose bytes
    /// have been read holds the entry's bytes.
    pub open spec fn wf(&self) -> bool {
        forall|k: int|
            0 <= k < self.spec_files().len() ==> {
                let f = #[trigger] self.spec_files()[k];
                &&& self.spec_contents() is Some
                &&& f.index < self.spec_contents().unwrap().len()
                &&& f.bytes.len() > 0 ==> self.spec_contents().unwrap()[f.index as int].3 == Some(
                    f.bytes,
                )
            }
    }

    /// An archive with nothing opened.
    pub fn new() -> (res: Self)
        ensures
            res.spec_files() == Seq::<ArchiveFileView>::empty(),
            res.spec_contents() is None,
            res.spec_len() == 0,
            res.wf(),
    {
        Archive { archive: None, files: Vec::new(), len: 0 }
    }

    /// The pages.
    pub fn files(&self) -> (res: &Vec<ArchiveFile>)
        ensures
            res@.map_values(|f: ArchiveFile| f@) == self.spec_files(),
    {
        &self.files
    }

    /// The number of entries of the opened archive.
    pub fn len(&self) -> (res: usize)
        ensures
            res == self.spec_len(),
    {
        self.len
    }
}

impl Archive {
    /// Reorders the pages by `sort_path` of their paths; where two pages share
    /// a path, the first of them takes both places.
    fn sort(&mut self)
        ensures
            final(self).spec_files() == sorted_files(old(self).spec_files()),
            forall|k: int|
                0 <= k < final(self).spec_files().len() ==> exists|j: int|
                    0 <= j < old(self).spec_files().len() && #[trigger] final(self).spec_files()[k]
                        == old(self).spec_files()[j],
            final(self).spec_contents() == old(self).spec_contents(),
            final(self).spec_len() == old(self).spec_len(),
    {
        let ghost fs = self.spec_files();
        let mut temp_paths: Vec<String> = Vec::new();
        let n = self.files.len();
        for i in 0..n
            invariant
                n == self.files@.len(),
                fs == self.spec_files(),
                temp_paths@.len() == i,
                forall|m: int| 0 <= m < i ==> (#[trigger] temp_paths@[m])@ == fs[m].relative_path,
        {
            temp_paths.push(self.files[i].relative_path.clone());
        }
        let sorted_paths = sort_path(&temp_paths);
        proof {
            crate::file::sort::lemma_sorted_by_key_keys(temp_paths@, KeyOrder::Natural);
            assert(crate::file::sort::keys_of(temp_paths@) =~= file_paths(fs));
            crate::file::sort::lemma_sorted_by_key_permutes(temp_paths@, KeyOrder::Natural);
        }
        let ghost target = sorted_files(fs);
        let mut files_sorted: Vec<ArchiveFile> = Vec::new();
        let m = sorted_paths.len();
        for k in 0..m
            invariant
                m == sorted_paths@.len(),
                n == self.files@.len(),
                fs == self.spec_files(),
                n == temp_paths@.len(),
                forall|q: int| 0 <= q < n ==> (#[trigger] temp_paths@[q])@ == fs[q].relative_path,
                sorted_paths@.to_multiset() == temp_paths@.to_multiset(),
                crate::file::sort::keys_of(sorted_paths@) == sorted_keys(file_paths(fs), KeyOrder::Natural),
                target == sorted_files(fs),
                target.len() == m,
                files_sorted@.len() == k,
                forall|q: int| 0 <= q < k ==> (#[trigger] files_sorted@[q])@ == target[q],
                forall|q: int|
                    0 <= q < k ==> exists|j: int| 0 <= j < n && (#[trigger] files_sorted@[q])@ == fs[j],
        {
            let p = &sorted_paths[k];
            proof {
                assert(sorted_paths@.contains(sorted_paths@[k as int]));
                vstd::seq_lib::to_multiset_contains(sorted_paths@, sorted_paths@[k as int]);
                vstd::seq_lib::to_multiset_contains(temp_paths@, sorted_paths@[k as int]);
                assert(temp_paths@.contains(sorted_paths@[k as int]));
            }
            let pc = chars_of(p.as_str());
            proof {
                lemma_path_order_total();
            }
            let mut j: usize = 0;
            while j < n && path_order_chars(&chars_of(self.files[j].relative_path.as_str()), &pc) != 0
                invariant
                    j <= n,
                    n == self.files@.len(),
                    fs == self.spec_files(),
                    pc@ == p@,
                    forall|a: Seq<char>, b: Seq<char>|
                        #[trigger] path_order(a, b) == 0 <==> path_parts(a) == path_parts(b),
                    forall|q: int| 0 <= q < j ==> path_parts((#[trigger] fs[q]).relative_path) != path_parts(p@),
                    exists|q: int| 0 <= q < n && (#[trigger] temp_paths@[q]) == *p,
                    forall|q: int| 0 <= q < n ==> (#[trigger] temp_paths@[q])@ == fs[q].relative_path,
                decreases n - j,
            {
                j = j + 1;
            }
            proof {
                if j == n {
                    let q = choose|q: int| 0 <= q < n && (#[trigger] temp_paths@[q]) == *p;
                    assert(fs[q].relative_path == p@);
                    assert(false);
                }
                assert(fs[j as int] == self.files@[j as int]@);
                assert(path_order(fs[j as int].relative_path, p@) == 0);
                lemma_first_with_path(fs, p@, j as int);
                assert(crate::file::sort::keys_of(sorted_paths@)[k as int] == p@);
            }
            files_sorted.push(self.files[j].clone());
            proof {
                assert(files_sorted@[k as int]@ == fs[j as int]);
            }
        }
        self.files = files_sorted;
        proof {
            assert(self.spec_files() =~= target);
            assert forall|q: int| 0 <= q < self.spec_files().len() implies exists|j: int|
                0 <= j < fs.len() && #[trigger] self.spec_files()[q] == fs[j] by {
                assert(self.spec_files()[q] == files_sorted@[q]@);
            }
        }
    }
}

impl Archive {
    /// Opens an archive held in memory and lists its pages: the entries that
    /// are not directories and whose decoded names name images and have no
    /// hidden component, with the width and height read from their first
    /// bytes, sorted by `sort_path`. Fails when the crate refuses the buffer,
    /// when an entry does not open, or when the first bytes of a page cannot
    /// be read.
    pub fn unarchive(&mut self, buffer: Vec<u8>) -> (res: Result<(), String>)
        ensures
            zip_parse(buffer@) is None ==> res is Err,
            (zip_parse(buffer@) matches Some(c) && forall|i: int|
                0 <= i < c.len() ==> (#[trigger] c[i]).0 && (is_page_entry(c[i]) ==> c[i].3 is Some))
                ==> res is Ok,
            (zip_parse(buffer@) matches Some(c) && exists|i: int|
                0 <= i < c.len() && !(#[trigger] c[i]).0) ==> res is Err,
            res is Ok ==> {
                let c = zip_parse(buffer@).unwrap();
                &&& zip_parse(buffer@) is Some
                &&& forall|i: int| 0 <= i < c.len() ==> (#[trigger] c[i]).0
                &&& final(self).spec_contents() == Some(c)
                &&& final(self).spec_len() == c.len()
                &&& exists|added: Seq<ArchiveFileView>|
                    {
                        &&& file_ids(added) == pages_upto(c, c.len() as int).map_values(
                            |p: (usize, Seq<char>)| page_id(p),
                        )
                        &&& all_unread(added)
                        &&& final(self).spec_files() == sorted_files(
                            old(self).spec_files() + added,
                        )
                    }
            },
            res is Ok && old(self).spec_files().len() == 0 ==> forall|k: int|
                0 <= k < final(self).spec_files().len() ==> {
                    let f = #[trigger] final(self).spec_files()[k];
                    let entry = zip_parse(buffer@).unwrap()[f.index as int];
                    &&& f.index < zip_parse(buffer@).unwrap().len()
                    &&& f.header.len() <= HEADER_BYTES
                    &&& entry.3 matches Some(d) ==> f.header == page_head(d)
                },
            res is Ok && old(self).spec_files().len() == 0 ==> final(self).wf(),
            res is Err ==> final(self).spec_contents() == old(self).spec_contents(),
    {
        let mut archive = zip_open(buffer)?;
        let ghost c = zip_contents(archive);
        self.len = zip_len(&archive);
        let len = self.len;
        let ghost old_files = self.spec_files();
        let ghost mut added: Seq<ArchiveFileView> = Seq::empty();
        for i in 0..len
            invariant
                len == c.len(),
                zip_contents(archive) == c,
                zip_parse(buffer@) is Some,
                c == zip_parse(buffer@).unwrap(),
                self.spec_contents() == old(self).spec_contents(),
                self.spec_len() == len,
                self.spec_files() == old_files + added,
                file_ids(added) == pages_upto(c, i as int).map_values(
                    |p: (usize, Seq<char>)| page_id(p),
                ),
                all_unread(added),
                forall|q: int| 0 <= q < added.len() ==> (#[trigger] added[q]).index < i,
                forall|q: int|
                    0 <= q < added.len() ==> {
                        let f = #[trigger] added[q];
                        &&& f.header.len() <= HEADER_BYTES
                        &&& c[f.index as int].3 matches Some(d) ==> f.header == page_head(d)
                    },
                forall|q: int| 0 <= q < i ==> (#[trigger] c[q]).0,
        {
            let (is_dir, name_raw) = zip_entry(&mut archive, i)?;
            let mut keep = false;
            let mut relative_path = String::new();
            if !is_dir {
                relative_path = decode_raw(name_raw.as_slice());
                keep = !is_hidden_entry(relative_path.as_str()) && is_image(relative_path.as_str());
            }
            if keep {
                let name = match file_name(relative_path.as_str()) {
                    Some(n) => n,
                    None => relative_path.clone(),
                };
                let header = zip_entry_head(&mut archive, i, HEADER_BYTES)?;
                let ghost head = header@;
                let mut file = ArchiveFile::new(i, name, relative_path, header_dimensions(header));
                file.header = Ghost(head);
                proof {
                    let f = file@;
                    let pages = pages_upto(c, i + 1);
                    let pid = |p: (usize, Seq<char>)| page_id(p);
                    assert(pages == pages_upto(c, i as int).push((i, decoded_name(c[i as int].2))));
                    assert(file_ids(added.push(f)) =~= file_ids(added).push(file_id(f)));
                    assert(pages.map_values(pid) =~= pages_upto(c, i as int).map_values(pid).push(
                        page_id((i, decoded_name(c[i as int].2))),
                    ));
                }
                let ghost before = self.files@;
                let ghost f = file@;
                self.files.push(file);
                proof {
                    assert(self.files@ == before.push(file));
                    assert(self.spec_files() =~= (old_files + added).push(f));
                    added = added.push(f);
                    assert(self.spec_files() =~= old_files + added);
                }
            } else {
                proof {
                    assert(pages_upto(c, i + 1) == pages_upto(c, i as int));
                }
            }
        }
        let ghost unsorted = self.spec_files();
        self.sort();
        self.archive = Some(archive);
        proof {
            assert(self.spec_files() == sorted_files(old_files + added));
            if old_files.len() == 0 {
                assert(unsorted =~= added);
                assert forall|k: int| 0 <= k < self.spec_files().len() implies {
                    let f = #[trigger] self.spec_files()[k];
                    &&& self.spec_contents() is Some
                    &&& f.index < self.spec_contents().unwrap().len()
                    &&& f.bytes.len() > 0 ==> self.spec_contents().unwrap()[f.index as int].3
                        == Some(f.bytes)
                } by {
                    let j = choose|j: int| 0 <= j < unsorted.len() && self.spec_files()[k] == unsorted[j];
                    assert(added[j].bytes.len() == 0);
                }
                assert forall|k: int| 0 <= k < self.spec_files().len() implies {
                    let f = #[trigger] self.spec_files()[k];
                    let entry = c[f.index as int];
                    &&& f.index < c.len()
                    &&& f.header.len() <= HEADER_BYTES
                    &&& entry.3 matches Some(d) ==> f.header == page_head(d)
                } by {
                    let j = choose|j: int| 0 <= j < unsorted.len() && self.spec_files()[k] == unsorted[j];
                    assert(added[j] == unsorted[j]);
                }
            }
        }
        Ok(())
    }
}

/// The position of the first page that is entry `index`, or the number of
/// pages.
pub open spec fn position_of(files: Seq<ArchiveFileView>, index: usize) -> int
    decreases files.len(),
{
    if files.len() == 0 {
        0
    } else if files[0].index == index {
        0
    } else {
        1 + position_of(files.drop_first(), index)
    }
}

proof fn lemma_position_of(files: Seq<ArchiveFileView>, index: usize, j: int)
    requires
        0 <= j <= files.len(),
        j < files.len() ==> files[j].index == index,
        forall|m: int| 0 <= m < j ==> (#[trigger] files[m]).index != index,
    ensures
        position_of(files, index) == j,
    decreases j,
{
    if j > 0 {
        assert forall|m: int| 0 <= m < j - 1 implies (#[trigger] files.drop_first()[m]).index
            != index by {
            assert(files.drop_first()[m] == files[m + 1]);
        }
        lemma_position_of(files.drop_first(), index, j - 1);
    }
}

impl Archive {
    /// The page that is entry `index`, with its bytes: read from the archive
    /// the first time, kept for later calls.
    pub fn get_zipfile(&mut self, index: usize) -> (res: Result<&ArchiveFile, String>)
        requires
            old(self).wf(),
        ensures
            final(self).wf(),
            final(self).spec_contents() == old(self).spec_contents(),
            final(self).spec_len() == old(self).spec_len(),
            ({
                let files = old(self).spec_files();
                let p = position_of(files, index);
                let f = files[p];
                let entry = old(self).spec_contents().unwrap()[f.index as int];
                &&& final(self).spec_files().len() == files.len()
                &&& forall|k: int|
                    0 <= k < files.len() && k != p ==> #[trigger] final(self).spec_files()[k]
                        == files[k]
                &&& p < files.len() ==> file_id(final(self).spec_files()[p]) == file_id(f)
                    && final(self).spec_files()[p].width == f.width
                    && final(self).spec_files()[p].height == f.height
                &&& (res is Ok) == (p < files.len() && (f.bytes.len() > 0 || (entry.0
                    && !entry.1 && entry.3 is Some)))
                &&& res matches Ok(r) ==> r@ == final(self).spec_files()[p] && r@.bytes
                    == entry.3.unwrap()
                &&& res is Ok ==> final(self).spec_files() == files.update(
                    p,
                    ArchiveFileView { bytes: entry.3.unwrap(), ..f },
                )
                &&& res is Err ==> final(self).spec_files() == files
                &&& p >= files.len() ==> (res matches Err(m) && m@ == "file not found"@)
                &&& p < files.len() && f.bytes.len() == 0 && entry.0 && entry.1 ==> (res matches Err(
                    m,
                ) && m@ == "file is a directory"@)
            }),
    {
        let ghost files = self.spec_files();
        let n = self.files.len();
        let mut p: usize = 0;
        while p < n && self.files[p].index != index
            invariant
                p <= n,
                n == self.files@.len(),
                files == self.spec_files(),
                forall|m: int| 0 <= m < p ==> (#[trigger] files[m]).index != index,
            decreases n - p,
        {
            p = p + 1;
        }
        proof {
            if p < n {
                assert(files[p as int] == self.files@[p as int]@);
            }
            lemma_position_of(files, index, p as int);
        }
        if p == n {
            return Err(String::from_str("file not found"));
        }
        if self.files[p].bytes.len() > 0 {
            proof {
                assert(files[p as int] == self.files@[p as int]@);
            }
            proof {
                let f = files[p as int];
                assert(files.update(p as int, ArchiveFileView { bytes: f.bytes, ..f }) =~= files);
            }
            return Ok(&self.files[p]);
        }
        let archive = match self.archive.as_mut() {
            Some(a) => a,
            None => {
                return Err(String::from_str("archive not loaded"));
            },
        };
        proof {
            assert(files[p as int] == self.files@[p as int]@);
            assert(files[p as int].index < zip_contents(*archive).len());
        }
        let (is_dir, _) = zip_entry(archive, index)?;
        if is_dir {
            return Err(String::from_str("file is a directory"));
        }
        let bytes = zip_entry_data(archive, index)?;
        let ghost data = bytes@;
        self.files[p].bytes = bytes;
        proof {
            let c = self.spec_contents().unwrap();
            assert(self.spec_files()[p as int].bytes == data);
            assert(c[index as int].3 == Some(data));
            assert(self.spec_files() =~= files.update(
                p as int,
                ArchiveFileView { bytes: data, ..files[p as int] },
            ));
            assert forall|k: int| 0 <= k < self.spec_files().len() implies {
                let f = #[trigger] self.spec_files()[k];
                &&& self.spec_contents() is Some
                &&& f.index < self.spec_contents().unwrap().len()
                &&& f.bytes.len() > 0 ==> self.spec_contents().unwrap()[f.index as int].3 == Some(
                    f.bytes,
                )
            } by {
                if k != p {
                    assert(self.spec_files()[k] == files[k]);
                }
            }
        }
        Ok(&self.files[p])
    }
}

} // verus!
