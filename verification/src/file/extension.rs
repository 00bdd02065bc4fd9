//! The kinds of file the reader knows by their extension.
use vstd::prelude::*;
use crate::text::chars_of;

verus! {

/// A file kind, read from an extension.
#[derive(Clone, Copy, PartialEq, Eq, Structural, Debug)]
pub enum Extension {
    Jpeg,
    Png,
    Zip,
    Cbz,
    Unknown,
}

/// ASCII lower case of one character (`char::to_ascii_lowercase`).
pub open spec fn ascii_lower(c: char) -> char {
    if 'A' <= c && c <= 'Z' {
        ((c as u32) + 32) as char
    } else {
        c
    }
}

/// ASCII lower case of a string.
pub open spec fn lower(s: Seq<char>) -> Seq<char> {
    s.map_values(|c: char| ascii_lower(c))
}

/// Two strings are equal up to ASCII case (`str::eq_ignore_ascii_case`).
pub open spec fn eq_ignore_case(a: Seq<char>, b: Seq<char>) -> bool {
    lower(a) == lower(b)
}

/// The extension text of each kind.
pub open spec fn extension_text(e: Extension) -> Seq<char> {
    match e {
        Extension::Jpeg => seq!['j', 'p', 'g'],
        Extension::Png => seq!['p', 'n', 'g'],
        Extension::Zip => seq!['z', 'i', 'p'],
        Extension::Cbz => seq!['c', 'b', 'z'],
        Extension::Unknown => Seq::empty(),
    }
}

/// The kind named by an extension, whatever its ASCII case.
pub open spec fn extension_kind(ext: Seq<char>) -> Extension {
    let l = lower(ext);
    if l == seq!['j', 'p', 'g'] || l == seq!['j', 'p', 'e', 'g'] {
        Extension::Jpeg
    } else if l == seq!['p', 'n', 'g'] {
        Extension::Png
    } else if l == seq!['z', 'i', 'p'] {
        Extension::Zip
    } else if l == seq!['c', 'b', 'z'] {
        Extension::Cbz
    } else {
        Extension::Unknown
    }
}

/// The ASCII lower case of one character.
pub fn to_ascii_lower(c: char) -> (res: char)
    ensures
        res == ascii_lower(c),
{
    if 'A' <= c && c <= 'Z' {
        let u: u32 = (c as u32) + 32;
        assert(u < 128);
        let b: u8 = u as u8;
        let r = b as char;
        assert(r == ((c as u32) + 32) as char) by {
            assert(b as u32 == u);
        }
        r
    } else {
        c
    }
}

/// Whether `a` equals the lower-case text `b` once `a` is put in lower case.
pub fn lower_equals(a: &Vec<char>, b: &str) -> (res: bool)
    ensures
        res == (lower(a@) == b@),
{
    let bc = chars_of(b);
    if a.len() != bc.len() {
        proof {
            assert(lower(a@).len() == a@.len());
        }
        return false;
    }
    let n = a.len();
    for i in 0..n
        invariant
            n == a@.len(),
            n == bc@.len(),
            bc@ == b@,
            forall|k: int| 0 <= k < i ==> ascii_lower(#[trigger] a@[k]) == bc@[k],
    {
        if to_ascii_lower(a[i]) != bc[i] {
            proof {
                assert(lower(a@)[i as int] != b@[i as int]);
            }
            return false;
        }
    }
    proof {
        assert(lower(a@) =~= b@);
    }
    true
}

/// Whether two strings are equal up to ASCII case.
pub fn eq_ignore_ascii_case(a: &str, b: &str) -> (res: bool)
    ensures
        res == eq_ignore_case(a@, b@),
{
    let ac = chars_of(a);
    let bc = chars_of(b);
    if ac.len() != bc.len() {
        proof {
            assert(lower(a@).len() == a@.len());
            assert(lower(b@).len() == b@.len());
        }
        return false;
    }
    let n = ac.len();
    for i in 0..n
        invariant
            n == ac@.len(),
            n == bc@.len(),
            ac@ == a@,
            bc@ == b@,
            forall|k: int| 0 <= k < i ==> ascii_lower(#[trigger] ac@[k]) == ascii_lower(bc@[k]),
    {
        if to_ascii_lower(ac[i]) != to_ascii_lower(bc[i]) {
            proof {
                assert(lower(a@)[i as int] != lower(b@)[i as int]);
            }
            return false;
        }
    }
    proof {
        assert(lower(a@) =~= lower(b@));
    }
    true
}

impl Extension {
    /// The extensions of image files: "jpg" and "png".
    pub fn to_image_vec() -> (res: Vec<&'static str>)
        ensures
            res@.len() == 2,
            res@[0]@ == extension_text(Extension::Jpeg),
            res@[1]@ == extension_text(Extension::Png),
    {
        let mut v: Vec<&'static str> = Vec::new();
        v.push(Self::Jpeg.to_str());
        v.push(Self::Png.to_str());
        v
    }

    /// The extensions of archive files: "zip" and "cbz".
    pub fn to_archive_vec() -> (res: Vec<&'static str>)
        ensures
            res@.len() == 2,
            res@[0]@ == extension_text(Extension::Zip),
            res@[1]@ == extension_text(Extension::Cbz),
    {
        let mut v: Vec<&'static str> = Vec::new();
        v.push(Self::Zip.to_str());
        v.push(Self::Cbz.to_str());
        v
    }

    /// The kind named by an extension, whatever its ASCII case: "jpg" and
    /// "jpeg" are JPEG images, "png" PNG images, "zip" and "cbz" archives.
    pub fn from_str(extension: &str) -> (res: Self)
        ensures
            res == extension_kind(extension@),
    {
        let chars = chars_of(extension);
        proof {
            reveal_strlit("jpg");
            reveal_strlit("jpeg");
            reveal_strlit("png");
            reveal_strlit("zip");
            reveal_strlit("cbz");
            assert("jpg"@ =~= seq!['j', 'p', 'g']);
            assert("jpeg"@ =~= seq!['j', 'p', 'e', 'g']);
            assert("png"@ =~= seq!['p', 'n', 'g']);
            assert("zip"@ =~= seq!['z', 'i', 'p']);
            assert("cbz"@ =~= seq!['c', 'b', 'z']);
        }
        if lower_equals(&chars, "jpg") || lower_equals(&chars, "jpeg") {
            Self::Jpeg
        } else if lower_equals(&chars, "png") {
            Self::Png
        } else if lower_equals(&chars, "zip") {
            Self::Zip
        } else if lower_equals(&chars, "cbz") {
            Self::Cbz
        } else {
            Self::Unknown
        }
    }

    /// The extension text of a kind; empty for `Unknown`.
    pub fn to_str(self) -> (res: &'static str)
        ensures
            res@ == extension_text(self),
    {
        proof {
            reveal_strlit("jpg");
            reveal_strlit("png");
            reveal_strlit("zip");
            reveal_strlit("cbz");
            reveal_strlit("");
        }
        match self {
            Self::Jpeg => "jpg",
            Self::Png => "png",
            Self::Zip => "zip",
            Self::Cbz => "cbz",
            Self::Unknown => "",
        }
    }
}

/// Law: reading back the text of a kind gives the kind again.
pub proof fn lemma_extension_round_trip(e: Extension)
    ensures
        extension_kind(extension_text(e)) == e,
{
    let t = extension_text(e);
    assert(lower(t) =~= t);
    let jpg = seq!['j', 'p', 'g'];
    let jpeg = seq!['j', 'p', 'e', 'g'];
    let png = seq!['p', 'n', 'g'];
    let zip = seq!['z', 'i', 'p'];
    let cbz = seq!['c', 'b', 'z'];
    assert(jpg.len() == 3 && jpeg.len() == 4 && png.len() == 3 && zip.len() == 3 && cbz.len() == 3);
    assert(jpg[0] == 'j' && png[0] == 'p' && zip[0] == 'z' && cbz[0] == 'c');
    assert(t.len() == 0 ==> t != jpg && t != jpeg && t != png && t != zip && t != cbz);
}

} // verus!
