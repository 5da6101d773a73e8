//! The image domain model: a file name with its pixel dimensions, its
//! `name:WxH` text form, and the exact validation rule against a candidate
//! file.

use vstd::prelude::*;

use crate::paths;
use crate::paths::{spec_file_name, spec_push};
use crate::text::{
    all_digits, spec_digits, spec_digits_val, spec_rfind, u64_string, parse_u64, rfind_char,
    str_eq, lemma_rfind_exact, lemma_digits_roundtrip,
};

verus! {

/// The pixel dimensions of an image.
#[derive(Debug, Clone, Copy, PartialEq, Eq, Structural)]
pub struct PixelSize {
    pub width: u64,
    pub height: u64,
}

/// Error for a reference entry that does not read back as image data.
#[derive(Debug, Clone, Copy, PartialEq, Eq, Structural)]
pub struct ParseImageDataError;

/// Error for a file that could not be read as an image.
#[derive(Debug, Clone, Copy, PartialEq, Eq, Structural)]
pub struct ImageProbeError;

/// Data about an individual image that is relevant to the reference file.
/// The path leading to the parent directory is stored elsewhere.
pub struct ImageData {
    pub file_name: String,
    pub size: PixelSize,
}

/// The possible kinds of invalid images. These are not fatal; they are
/// collected and displayed once the scan ends.
pub enum InvalidImage {
    /// The name was not found in the image reference; holds the path.
    BadName(String),
    /// Wrong pixel size; holds the path, the size found and the size
    /// expected.
    BadSize(String, PixelSize, PixelSize),
    /// The file could not be read as an image; holds the path.
    Unreadable(String),
}

/// The mathematical form of an [`InvalidImage`].
pub enum InvalidImageView {
    BadName(Seq<char>),
    BadSize(Seq<char>, PixelSize, PixelSize),
    Unreadable(Seq<char>),
}

impl View for InvalidImage {
    type V = InvalidImageView;

    open spec fn view(&self) -> InvalidImageView {
        match self {
            InvalidImage::BadName(p) => InvalidImageView::BadName(p@),
            InvalidImage::BadSize(p, got, expected) => InvalidImageView::BadSize(
                p@,
                *got,
                *expected,
            ),
            InvalidImage::Unreadable(p) => InvalidImageView::Unreadable(p@),
        }
    }
}

/// What `name:WxH` decodes to: the name is everything before the last `:`,
/// the width and height split at the last `x`, both plain decimal numbers.
pub open spec fn spec_decode_image(s: Seq<char>) -> Option<(Seq<char>, int, int)> {
    let c = spec_rfind(s, ':');
    if c < 0 {
        None
    } else {
        let name = s.subrange(0, c);
        let sz = s.subrange(c + 1, s.len() as int);
        let x = spec_rfind(sz, 'x');
        if x < 0 {
            None
        } else {
            let w = sz.subrange(0, x);
            let h = sz.subrange(x + 1, sz.len() as int);
            if w.len() > 0 && all_digits(w) && spec_digits_val(w) <= u64::MAX && h.len() > 0
                && all_digits(h) && spec_digits_val(h) <= u64::MAX {
                Some((name, spec_digits_val(w), spec_digits_val(h)))
            } else {
                None
            }
        }
    }
}

impl ImageData {
    /// The entry's text form: `name:WxH`.
    pub open spec fn spec_encoded(self) -> Seq<char> {
        self.file_name@ + seq![':'] + spec_digits(self.size.width as nat) + seq!['x']
            + spec_digits(self.size.height as nat)
    }

    /// Renders the entry as `name:WxH`.
    pub fn encode(&self) -> (r: String)
        ensures
            r@ == self.spec_encoded(),
    {
        proof {
            reveal_strlit(":");
            reveal_strlit("x");
        }
        let mut out = self.file_name.clone();
        out.append(":");
        let w = u64_string(self.size.width);
        out.append(w.as_str());
        out.append("x");
        let h = u64_string(self.size.height);
        out.append(h.as_str());
        proof {
            assert(out@ =~= self.spec_encoded());
        }
        out
    }

    /// Reads an entry back from its `name:WxH` text form, failing — not
    /// panicking — on anything malformed.
    pub fn from_str(s: &str) -> (r: Result<ImageData, ParseImageDataError>)
        ensures
            match r {
                Ok(d) => spec_decode_image(s@) == Some(
                    (d.file_name@, d.size.width as int, d.size.height as int),
                ),
                Err(_) => spec_decode_image(s@) is None,
            },
    {
        let n = s.unicode_len();
        proof {
            crate::text::lemma_rfind(s@, ':');
        }
        let (found_c, c) = rfind_char(s, ':');
        if !found_c {
            return Err(ParseImageDataError);
        }
        let name = s.substring_char(0, c).to_owned();
        let sz = s.substring_char(c + 1, n).to_owned();
        let m = sz.unicode_len();
        proof {
            crate::text::lemma_rfind(sz@, 'x');
        }
        let (found_x, x) = rfind_char(sz.as_str(), 'x');
        if !found_x {
            return Err(ParseImageDataError);
        }
        let w = match parse_u64(sz.as_str().substring_char(0, x)) {
            Some(v) => v,
            None => {
                return Err(ParseImageDataError);
            },
        };
        let h = match parse_u64(sz.as_str().substring_char(x + 1, m)) {
            Some(v) => v,
            None => {
                return Err(ParseImageDataError);
            },
        };
        Ok(ImageData { file_name: name, size: PixelSize { width: w, height: h } })
    }

    /// The exact validation rule, on a candidate's name and probed size:
    /// a name mismatch is `BadName` whatever the size; a name match with
    /// the wrong size is `BadSize` carrying found and expected.
    pub open spec fn spec_check(
        self,
        file_name: Seq<char>,
        size: PixelSize,
        path: Seq<char>,
    ) -> Result<(), InvalidImageView> {
        if self.file_name@ != file_name {
            Err(InvalidImageView::BadName(path))
        } else if size == self.size {
            Ok(())
        } else {
            Err(InvalidImageView::BadSize(path, size, self.size))
        }
    }

    /// Checks a candidate whose pixel size has already been probed.
    pub fn validate_with_size(&self, file_name: &str, size: PixelSize, path: &str) -> (r: Result<
        (),
        InvalidImage,
    >)
        ensures
            match r {
                Ok(()) => self.spec_check(file_name@, size, path@) is Ok,
                Err(e) => self.spec_check(file_name@, size, path@) == Err::<
                    (),
                    InvalidImageView,
                >(e@),
            },
    {
        if !str_eq(self.file_name.as_str(), file_name) {
            Err(InvalidImage::BadName(path.to_owned()))
        } else if size.width == self.size.width && size.height == self.size.height {
            Ok(())
        } else {
            Err(InvalidImage::BadSize(path.to_owned(), size, self.size))
        }
    }

    /// Returns `Ok` if the candidate file is this very image. Probes the
    /// file at `dir/file_name` for its pixel size; the name is checked
    /// first, so a name mismatch never touches the disk, and a file the
    /// probe cannot read comes back as `Unreadable` instead of a panic.
    pub fn validate_image(&self, dir: &str, file_name: &str) -> (r: Result<(), InvalidImage>)
        ensures
            match r {
                Ok(()) => self.file_name@ == file_name@,
                Err(e) => match e@ {
                    InvalidImageView::BadName(p) => p == spec_push(dir@, file_name@)
                        && self.file_name@ != file_name@,
                    InvalidImageView::BadSize(p, got, expected) => p == spec_push(
                        dir@,
                        file_name@,
                    ) && self.file_name@ == file_name@ && expected == self.size && got
                        != self.size,
                    InvalidImageView::Unreadable(p) => p == spec_push(dir@, file_name@)
                        && self.file_name@ == file_name@,
                },
            },
    {
        let path = paths::push(dir, file_name);
        if !str_eq(self.file_name.as_str(), file_name) {
            return Err(InvalidImage::BadName(path));
        }
        match probe_image_size(path.as_str()) {
            Err(_) => Err(InvalidImage::Unreadable(path)),
            Ok(size) => self.validate_with_size(file_name, size, path.as_str()),
        }
    }

    /// Creates an [`ImageData`] from an image file on disk: the name from
    /// the path, the size probed from the file's header.
    pub fn open(path: &str) -> (r: Result<ImageData, ImageProbeError>)
        ensures
            r matches Ok(d) ==> d.file_name@ == spec_file_name(path@),
    {
        let file_name = paths::file_name(path);
        match probe_image_size(path) {
            Ok(size) => Ok(ImageData { file_name, size }),
            Err(e) => Err(e),
        }
    }
}

/// Encoding an entry and decoding the text gives the entry back, whatever
/// the file name holds: the digits after the last `:` and the last `x`
/// leave no room for another reading.
pub proof fn lemma_image_encode_decode(d: ImageData)
    ensures
        spec_decode_image(d.spec_encoded()) == Some(
            (d.file_name@, d.size.width as int, d.size.height as int),
        ),
{
    let s = d.spec_encoded();
    let name = d.file_name@;
    let w = spec_digits(d.size.width as nat);
    let h = spec_digits(d.size.height as nat);
    lemma_digits_roundtrip(d.size.width as nat);
    lemma_digits_roundtrip(d.size.height as nat);
    let c = name.len() as int;
    assert(s[c] == ':');
    assert forall|x: int| c < x < s.len() implies s[x] != ':' by {
        if x < c + 1 + w.len() {
            assert(s[x] == w[x - c - 1]);
            assert(crate::text::is_digit_char(w[x - c - 1]));
        } else if x == c + 1 + w.len() {
            assert(s[x] == 'x');
        } else {
            assert(s[x] == h[x - c - 2 - w.len()]);
            assert(crate::text::is_digit_char(h[x - c - 2 - w.len()]));
        }
    }
    lemma_rfind_exact(s, ':', c);
    assert(s.subrange(0, c) =~= name);
    let sz = s.subrange(c + 1, s.len() as int);
    assert(sz =~= w + seq!['x'] + h);
    let xi = w.len() as int;
    assert(sz[xi] == 'x');
    assert forall|x: int| xi < x < sz.len() implies sz[x] != 'x' by {
        assert(sz[x] == h[x - xi - 1]);
        assert(crate::text::is_digit_char(h[x - xi - 1]));
    }
    lemma_rfind_exact(sz, 'x', xi);
    assert(sz.subrange(0, xi) =~= w);
    assert(sz.subrange(xi + 1, sz.len() as int) =~= h);
}

/// A path as the reports show it: every backslash turned forward.
pub open spec fn spec_pretty_path(p: Seq<char>) -> Seq<char> {
    Seq::new(p.len(), |i: int| if p[i] == '\\' {
        '/'
    } else {
        p[i]
    })
}

/// Renders a path for a report line.
pub fn display_path_pretty(path: &str) -> (r: String)
    ensures
        r@ == spec_pretty_path(path@),
{
    proof {
        reveal_strlit("/");
    }
    let n = path.unicode_len();
    let mut out = String::new();
    let mut i: usize = 0;
    while i < n
        invariant
            n == path@.len(),
            i <= n,
            out@ == Seq::new(i as nat, |q: int| if path@[q] == '\\' {
                '/'
            } else {
                path@[q]
            }),
        decreases n - i,
    {
        proof {
            reveal_strlit("/");
        }
        let c = path.get_char(i);
        if c == '\\' {
            out.append("/");
        } else {
            let piece = path.substring_char(i, i + 1);
            out.append(piece);
        }
        proof {
            assert(out@ =~= Seq::new((i + 1) as nat, |q: int| if path@[q] == '\\' {
                '/'
            } else {
                path@[q]
            }));
        }
        i = i + 1;
    }
    proof {
        assert(out@ =~= spec_pretty_path(path@));
    }
    out
}

impl InvalidImage {
    /// The report line for this finding.
    pub open spec fn spec_message(self) -> Seq<char> {
        match self@ {
            InvalidImageView::BadName(p) => spec_pretty_path(p) + "\t: The name `"@
                + spec_file_name(p) + "` was not found in the image reference."@,
            InvalidImageView::BadSize(p, got, expected) => spec_pretty_path(p)
                + "\t: Wrong image size "@ + spec_digits(got.width as nat) + "x"@ + spec_digits(
                got.height as nat,
            ) + ". (expected "@ + spec_digits(expected.width as nat) + "x"@ + spec_digits(
                expected.height as nat,
            ) + ")"@,
            InvalidImageView::Unreadable(p) => spec_pretty_path(p)
                + "\t: Couldn't read as image."@,
        }
    }

    /// Renders the report line.
    pub fn message(&self) -> (r: String)
        ensures
            r@ == self.spec_message(),
    {
        match self {
            InvalidImage::BadName(p) => {
                let mut out = display_path_pretty(p.as_str());
                out.append("\t: The name `");
                let name = paths::file_name(p.as_str());
                out.append(name.as_str());
                out.append("` was not found in the image reference.");
                proof {
                    assert(out@ =~= self.spec_message());
                }
                out
            },
            InvalidImage::BadSize(p, got, expected) => {
                let mut out = display_path_pretty(p.as_str());
                out.append("\t: Wrong image size ");
                let gw = u64_string(got.width);
                out.append(gw.as_str());
                out.append("x");
                let gh = u64_string(got.height);
                out.append(gh.as_str());
                out.append(". (expected ");
                let ew = u64_string(expected.width);
                out.append(ew.as_str());
                out.append("x");
                let eh = u64_string(expected.height);
                out.append(eh.as_str());
                out.append(")");
                proof {
                    assert(out@ =~= self.spec_message());
                }
                out
            },
            InvalidImage::Unreadable(p) => {
                let mut out = display_path_pretty(p.as_str());
                out.append("\t: Couldn't read as image.");
                proof {
                    assert(out@ =~= self.spec_message());
                }
                out
            },
        }
    }
}

/// Relies on imagesize::size: reads the header of the image file at `path`
/// and reports its pixel dimensions. The result depends on what is on disk,
/// so nothing is promised of it.
#[verifier::external_body]
pub(crate) fn probe_image_size(path: &str) -> (r: Result<PixelSize, ImageProbeError>) {
    match imagesize::size(path) {
        Ok(s) => Ok(PixelSize { width: s.width as u64, height: s.height as u64 }),
        Err(_) => Err(ImageProbeError),
    }
}

} // verus!
