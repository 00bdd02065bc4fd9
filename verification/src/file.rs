//! Books, their images and the library of neighbouring volumes.
pub mod number;
pub mod natural;
pub mod sort;
pub mod path;
pub mod path_order;
pub mod extension;
pub mod archive;
pub mod image;
pub mod book;
pub mod library;
pub mod open_file;
pub mod open_files;
pub mod isize_sign;

pub use natural::cmp_natural;
pub use sort::sort_path;
pub use extension::Extension;
pub use open_file::OpenFile;
pub use open_files::OpenFiles;
pub use book::Book;
pub use image::Image;
pub use archive::Archive;
pub use library::Library;

use vstd::prelude::*;
use crate::text::chars_of;
use crate::file::extension::{eq_ignore_ascii_case, eq_ignore_case, extension_text};
use crate::file::path::{extension, path_extension};

verus! {

/// Whether the extension `e` is one of `exts`, up to ASCII case.
pub open spec fn in_extensions(e: Seq<char>, exts: Seq<Seq<char>>) -> bool {
    exists|i: int| 0 <= i < exts.len() && eq_ignore_case(#[trigger] exts[i], e)
}

/// The extensions of image files.
pub open spec fn image_extensions() -> Seq<Seq<char>> {
    seq![extension_text(Extension::Jpeg), extension_text(Extension::Png)]
}

/// The extensions of archive files.
pub open spec fn archive_extensions() -> Seq<Seq<char>> {
    seq![extension_text(Extension::Zip), extension_text(Extension::Cbz)]
}

/// The path names a file whose extension is one of `exts`.
pub open spec fn has_extension_in(p: Seq<char>, exts: Seq<Seq<char>>) -> bool {
    match path_extension(p) {
        Some(e) => in_extensions(e, exts),
        None => false,
    }
}

/// The path names an image file: its extension is "jpg" or "png" in any case.
pub open spec fn is_image_path(p: Seq<char>) -> bool {
    has_extension_in(p, image_extensions())
}

/// The path names an archive: its extension is "zip" or "cbz" in any case.
pub open spec fn is_archive_path(p: Seq<char>) -> bool {
    has_extension_in(p, archive_extensions())
}

fn any_matches(list: &Vec<&'static str>, e: &str) -> (res: bool)
    ensures
        res == exists|i: int| 0 <= i < list@.len() && eq_ignore_case(#[trigger] list@[i]@, e@),
{
    let n = list.len();
    for i in 0..n
        invariant
            n == list@.len(),
            forall|k: int| 0 <= k < i ==> !eq_ignore_case(#[trigger] list@[k]@, e@),
    {
        if eq_ignore_ascii_case(list[i], e) {
            return true;
        }
    }
    false
}

/// Whether a path names an image file.
pub fn is_image(path: &str) -> (res: bool)
    ensures
        res == is_image_path(path@),
{
    let Some(ext) = extension(path) else {
        return false;
    };
    let list = Extension::to_image_vec();
    let r = any_matches(&list, ext.as_str());
    proof {
        let exts = image_extensions();
        assert(list@[0]@ == exts[0] && list@[1]@ == exts[1]);
        if r {
            let i = choose|i: int| 0 <= i < list@.len() && eq_ignore_case(#[trigger] list@[i]@, ext@);
            assert(eq_ignore_case(exts[i], ext@));
        }
        if in_extensions(ext@, exts) {
            let i = choose|i: int| 0 <= i < exts.len() && eq_ignore_case(#[trigger] exts[i], ext@);
            assert(eq_ignore_case(list@[i]@, ext@));
        }
    }
    r
}

/// Whether a path names an archive.
pub fn is_archive(path: &str) -> (res: bool)
    ensures
        res == is_archive_path(path@),
{
    let Some(ext) = extension(path) else {
        return false;
    };
    let list = Extension::to_archive_vec();
    let r = any_matches(&list, ext.as_str());
    proof {
        let exts = archive_extensions();
        assert(list@[0]@ == exts[0] && list@[1]@ == exts[1]);
        if r {
            let i = choose|i: int| 0 <= i < list@.len() && eq_ignore_case(#[trigger] list@[i]@, ext@);
            assert(eq_ignore_case(exts[i], ext@));
        }
        if in_extensions(ext@, exts) {
            let i = choose|i: int| 0 <= i < exts.len() && eq_ignore_case(#[trigger] exts[i], ext@);
            assert(eq_ignore_case(list@[i]@, ext@));
        }
    }
    r
}

/// The index of the first separator at or after `k`, or the length.
pub open spec fn piece_end(p: Seq<char>, k: int) -> int
    decreases p.len() - k,
{
    if k < 0 || k >= p.len() || p[k] == '/' {
        if k < 0 { 0 } else { k }
    } else {
        piece_end(p, k + 1)
    }
}

/// A component of the path starts at `k`.
pub open spec fn is_piece_start(p: Seq<char>, k: int) -> bool {
    0 <= k < p.len() && p[k] != '/' && (k == 0 || p[k - 1] == '/')
}

/// The name of the folder macOS adds to archives for its resource forks.
pub open spec fn macosx() -> Seq<char> {
    seq!['_', '_', 'M', 'A', 'C', 'O', 'S', 'X']
}

/// The component that starts at `k` is hidden: it starts with '.' (a "."
/// component counts only at the start of the path, where `Path` keeps it), or
/// it is "__MACOSX".
pub open spec fn is_hidden_piece(p: Seq<char>, k: int) -> bool {
    let piece = p.subrange(k, piece_end(p, k));
    (piece[0] == '.' && !(k > 0 && piece == seq!['.'])) || piece == macosx()
}

/// Some component of the path is hidden.
pub open spec fn is_hidden_path(p: Seq<char>) -> bool {
    exists|k: int| is_piece_start(p, k) && #[trigger] is_hidden_piece(p, k)
}

proof fn lemma_piece_end(p: Seq<char>, k: int)
    requires
        0 <= k <= p.len(),
    ensures
        k <= piece_end(p, k) <= p.len(),
        forall|m: int| k <= m < piece_end(p, k) ==> #[trigger] p[m] != '/',
        piece_end(p, k) < p.len() ==> p[piece_end(p, k)] == '/',
    decreases p.len() - k,
{
    if k < p.len() && p[k] != '/' {
        lemma_piece_end(p, k + 1);
    }
}

/// Whether some component of a path is hidden: a dot file or dot folder, or
/// the "__MACOSX" folder.
pub fn is_hidden_entry(path: &str) -> (res: bool)
    ensures
        res == is_hidden_path(path@),
{
    let chars = chars_of(path);
    let macos = chars_of("__MACOSX");
    proof {
        reveal_strlit("__MACOSX");
        assert(macos@ =~= macosx());
    }
    let n = chars.len();
    let mut i: usize = 0;
    while i < n
        invariant
            n == chars@.len(),
            chars@ == path@,
            macos@ == macosx(),
            i <= n,
            forall|k: int| 0 <= k < i && is_piece_start(path@, k) ==> !#[trigger] is_hidden_piece(
                path@,
                k,
            ),
        decreases n - i,
    {
        if chars[i] != '/' && (i == 0 || chars[i - 1] == '/') {
            let mut e = i;
            while e < n && chars[e] != '/'
                invariant
                    i <= e <= n,
                    n == chars@.len(),
                    piece_end(chars@, i as int) == piece_end(chars@, e as int),
                decreases n - e,
            {
                e = e + 1;
            }
            proof {
                lemma_piece_end(chars@, i as int);
            }
            let len = e - i;
            let dot_start = chars[i] == '.';
            let lone_dot = len == 1 && dot_start;
            let mut mac = len == 8;
            if mac {
                let mut m: usize = 0;
                while m < 8
                    invariant
                        m <= 8,
                        len == 8,
                        len == e - i,
                        e <= n,
                        i + 8 <= n,
                        n == chars@.len(),
                        macos@ == macosx(),
                        mac == (forall|q: int| 0 <= q < m ==> chars@[i + q] == #[trigger] macos@[q]),
                    decreases 8 - m,
                {
                    if chars[i + m] != macos[m] {
                        mac = false;
                    }
                    m = m + 1;
                }
            }
            proof {
                let piece = chars@.subrange(i as int, e as int);
                assert(piece.len() == len);
                if lone_dot {
                    assert(piece =~= seq!['.']);
                }
                if piece == seq!['.'] {
                    assert(piece[0] == chars@[i as int]);
                }
                if mac {
                    assert(piece =~= macosx());
                }
                if piece == macosx() {
                    assert forall|q: int| 0 <= q < 8 implies chars@[i + q] == #[trigger] macos@[q] by {
                        assert(piece[q] == chars@[i + q]);
                    }
                }
            }
            proof {
                assert(piece_end(chars@, e as int) == e);
                let piece = chars@.subrange(i as int, e as int);
                assert(piece[0] == chars@[i as int]);
                assert(is_piece_start(path@, i as int));
                assert((piece[0] == '.') == dot_start);
                assert((piece == seq!['.']) == lone_dot);
                assert((piece == macosx()) == mac);
                assert(is_hidden_piece(path@, i as int) == ((dot_start && !(i > 0 && lone_dot))
                    || mac));
            }
            if (dot_start && !(i > 0 && lone_dot)) || mac {
                return true;
            }
        }
        i = i + 1;
    }
    false
}

} // verus!
