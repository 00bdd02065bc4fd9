//! The images that make up a book.
use vstd::prelude::*;
use crate::error::{GachoError, GachoErrorView};
use crate::file::extension::{Extension, extension_kind};
use crate::file::path::{file_name, extension, path_file_name, path_extension};
use crate::file::{is_image, is_image_path};

verus! {

/// An image of a book: a file of its own, or a page of an archive.
pub struct Image {
    /// The identifier the book gave the image.
    id: u64,
    /// The path of the image file, or of the archive that holds the page.
    path: String,
    /// The path relative to the folder the book was opened from, or the path
    /// inside the archive.
    relative_path: String,
    /// The file name of the image.
    file_name: String,
    /// The kind of `path`.
    extension: Extension,
    /// The width, 0 when unknown.
    width: u32,
    /// The height, 0 when unknown.
    height: u32,
    /// The bytes of an archive page once read; empty otherwise.
    bytes: Vec<u8>,
    /// The index of the page in its archive.
    archive_index: usize,
}

/// What an image holds.
pub ghost struct ImageView {
    pub id: u64,
    pub path: Seq<char>,
    pub relative_path: Seq<char>,
    pub file_name: Seq<char>,
    pub extension: Extension,
    pub width: u32,
    pub height: u32,
    pub bytes: Seq<u8>,
    pub archive_index: usize,
}

impl View for Image {
    type V = ImageView;

    closed spec fn view(&self) -> ImageView {
        ImageView {
            id: self.id,
            path: self.path@,
            relative_path: self.relative_path@,
            file_name: self.file_name@,
            extension: self.extension,
            width: self.width,
            height: self.height,
            bytes: self.bytes@,
            archive_index: self.archive_index,
        }
    }
}

impl Clone for Image {
    fn clone(&self) -> (res: Self)
        ensures
            res@ == self@,
    {
        Image {
            id: self.id,
            path: self.path.clone(),
            relative_path: self.relative_path.clone(),
            file_name: self.file_name.clone(),
            extension: self.extension,
            width: self.width,
            height: self.height,
            bytes: self.bytes.clone(),
            archive_index: self.archive_index,
        }
    }
}

/// An image is a page of an archive: its path has a zip or cbz extension.
pub open spec fn is_archive_image(v: ImageView) -> bool {
    v.extension == Extension::Zip || v.extension == Extension::Cbz
}

/// An image is wider than it is high.
pub open spec fn is_landscape_image(v: ImageView) -> bool {
    v.width > v.height
}

/// The outcome of `Image::new` on its arguments; `dimensions` is what reading
/// the file's width and height gave, consulted only for an image file.
pub open spec fn new_image_spec(
    path: Seq<char>,
    relative_path: Seq<char>,
    file_name: Option<Seq<char>>,
    bytes: Option<Seq<u8>>,
    archive_index: Option<usize>,
    id: u64,
    dimensions: Result<(u32, u32), Seq<char>>,
) -> Result<ImageView, GachoErrorView> {
    let name = match file_name {
        Some(n) => Some(n),
        None => path_file_name(path),
    };
    if name is None {
        Err(GachoErrorView::FileError("File name not found"@, path))
    } else if path_extension(path) is None {
        Err(GachoErrorView::FileError("File extension not found"@, path))
    } else if is_image_path(path) && dimensions is Err {
        Err(GachoErrorView::FileError(dimensions->Err_0, path))
    } else {
        let (w, h) = if is_image_path(path) {
            dimensions->Ok_0
        } else {
            (0u32, 0u32)
        };
        Ok(
            ImageView {
                id,
                path,
                relative_path,
                file_name: name.unwrap(),
                extension: extension_kind(path_extension(path).unwrap()),
                width: w,
                height: h,
                bytes: match bytes {
                    Some(b) => b,
                    None => Seq::empty(),
                },
                archive_index: match archive_index {
                    Some(i) => i,
                    None => 0,
                },
            },
        )
    }
}

/// The view of an error-or-message result.
pub open spec fn dims_view(d: Result<(u32, u32), String>) -> Result<(u32, u32), Seq<char>> {
    match d {
        Ok(x) => Ok(x),
        Err(m) => Err(m@),
    }
}

/// The view of the outcome of `Image::new`.
pub open spec fn image_result_view(r: Result<Image, GachoError>) -> Result<ImageView, GachoErrorView> {
    match r {
        Ok(i) => Ok(i@),
        Err(e) => Err(e@),
    }
}

impl Image {
    /// A new image. The file name is the one given, else the file name of the
    /// path; the kind is read from the extension of the path; the width and
    /// height are the `dimensions` read from the file when the path names an
    /// image file, 0 otherwise.
    pub fn new(
        path: String,
        relative_path: String,
        file_name: Option<String>,
        bytes: Option<Vec<u8>>,
        archive_index: Option<usize>,
        id: u64,
        dimensions: Result<(u32, u32), String>,
    ) -> (res: Result<Self, GachoError>)
        ensures
            image_result_view(res) == new_image_spec(
                path@,
                relative_path@,
                match file_name {
                    Some(n) => Some(n@),
                    None => None,
                },
                match bytes {
                    Some(b) => Some(b@),
                    None => None,
                },
                archive_index,
                id,
                dims_view(dimensions),
            ),
    {
        proof {
            reveal_strlit("File name not found");
            reveal_strlit("File extension not found");
        }
        let name = match file_name {
            Some(n) => n,
            None => match crate::file::path::file_name(path.as_str()) {
                Some(n) => n,
                None => {
                    return Err(
                        GachoError::FileError(String::from_str("File name not found"), path),
                    );
                },
            },
        };
        let kind = match extension(path.as_str()) {
            Some(ext) => Extension::from_str(ext.as_str()),
            None => {
                return Err(
                    GachoError::FileError(String::from_str("File extension not found"), path),
                );
            },
        };
        let (width, height) = if is_image(path.as_str()) {
            match dimensions {
                Ok(d) => d,
                Err(m) => {
                    return Err(GachoError::FileError(m, path));
                },
            }
        } else {
            (0, 0)
        };
        let bytes = match bytes {
            Some(b) => b,
            None => Vec::new(),
        };
        let archive_index = match archive_index {
            Some(i) => i,
            None => 0,
        };
        Ok(
            Image {
                id,
                path,
                relative_path,
                file_name: name,
                extension: kind,
                width,
                height,
                bytes,
                archive_index,
            },
        )
    }

    /// The identifier of the image.
    pub fn id(&self) -> (res: &u64)
        ensures
            *res == self@.id,
    {
        &self.id
    }

    /// The path of the image file, or of its archive.
    pub fn path(&self) -> (res: &String)
        ensures
            res@ == self@.path,
    {
        &self.path
    }

    /// The relative path of the image.
    pub fn relative_path(&self) -> (res: &String)
        ensures
            res@ == self@.relative_path,
    {
        &self.relative_path
    }

    /// The file name of the image.
    pub fn file_name(&self) -> (res: &String)
        ensures
            res@ == self@.file_name,
    {
        &self.file_name
    }

    /// The kind of the image's path.
    pub fn extension(&self) -> (res: &Extension)
        ensures
            *res == self@.extension,
    {
        &self.extension
    }

    /// The width and height, 0 when unknown.
    pub fn size(&self) -> (res: (u32, u32))
        ensures
            res == (self@.width, self@.height),
    {
        (self.width, self.height)
    }

    /// The bytes of an archive page once read.
    pub fn bytes(&self) -> (res: &Vec<u8>)
        ensures
            res@ == self@.bytes,
    {
        &self.bytes
    }

    /// The index of the page in its archive.
    pub fn archive_index(&self) -> (res: &usize)
        ensures
            *res == self@.archive_index,
    {
        &self.archive_index
    }

    /// Replaces the bytes.
    pub fn set_bytes(&mut self, bytes: Vec<u8>)
        ensures
            final(self)@ == (ImageView { bytes: bytes@, ..old(self)@ }),
    {
        self.bytes = bytes;
    }

    /// Replaces the width and height.
    pub fn set_size(&mut self, size: (u32, u32))
        ensures
            final(self)@ == (ImageView { width: size.0, height: size.1, ..old(self)@ }),
    {
        self.width = size.0;
        self.height = size.1;
    }

    /// Whether the image is a page of an archive.
    pub fn is_archive(&self) -> (res: bool)
        ensures
            res == is_archive_image(self@),
    {
        match self.extension {
            Extension::Zip | Extension::Cbz => true,
            _ => false,
        }
    }

    /// Whether the bytes are empty.
    pub fn is_empty_bytes(&self) -> (res: bool)
        ensures
            res == (self@.bytes.len() == 0),
    {
        self.bytes.len() == 0
    }

    /// Whether the image is wider than it is high.
    pub fn is_landscape(&self) -> (res: bool)
        ensures
            res == is_landscape_image(self@),
            res == (self@.width > self@.height),
    {
        self.width > self.height
    }
}

} // verus!
