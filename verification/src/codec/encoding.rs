//! Output formats and the resolution of encoder options against an output path.
use crate::error::{ErrorCode, PicError};
use crate::operation::geometry::RgbaColor;
use vstd::prelude::*;
use vstd::string::*;

verus! {

#[derive(Debug, Clone, Copy, PartialEq, Eq, Structural)]
pub enum Format {
    Png,
    Jpeg,
}

/// ASCII letters lowered; every other character kept.
pub open spec fn ascii_lower(c: char) -> char {
    if 'A' <= c <= 'Z' {
        ((c as u32) + 32) as char
    } else {
        c
    }
}

pub open spec fn lowered(text: Seq<char>) -> Seq<char> {
    text.map_values(|c: char| ascii_lower(c))
}

/// The format that a case-insensitive name selects: `png`, `jpg` or `jpeg`.
pub open spec fn format_named(text: Seq<char>) -> Option<Format> {
    let l = lowered(text);
    if l == seq!['p', 'n', 'g'] {
        Some(Format::Png)
    } else if l == seq!['j', 'p', 'g'] || l == seq!['j', 'p', 'e', 'g'] {
        Some(Format::Jpeg)
    } else {
        None
    }
}

fn lower_char(c: char) -> (r: char)
    ensures
        r == ascii_lower(c),
{
    if 'A' <= c && c <= 'Z' {
        ((c as u8) + 32) as char
    } else {
        c
    }
}

/// Whether `value`, ASCII-lowered, spells `word`.
fn lowered_is(value: &str, spelled: &[char]) -> (r: bool)
    ensures
        r == (lowered(value@) == spelled@),
{
    let ghost word = spelled@;
    let n = value.unicode_len();
    if n != spelled.len() {
        assert(lowered(value@).len() != word.len());
        return false;
    }
    let mut i: usize = 0;
    while i < n
        invariant
            n == value@.len(),
            n == word.len(),
            spelled@ == word,
            i <= n,
            forall|j: int| 0 <= j < i ==> ascii_lower(value@[j]) == word[j],
        decreases n - i,
    {
        if lower_char(value.get_char(i)) != spelled[i] {
            assert(lowered(value@)[i as int] != word[i as int]);
            return false;
        }
        i += 1;
    }
    assert(lowered(value@) =~= word);
    true
}

impl Format {
    /// `png`, `jpg` or `jpeg`, in any ASCII case.
    pub fn parse(value: &str) -> (r: Result<Format, PicError>)
        ensures
            match r {
                Ok(f) => format_named(value@) == Some(f),
                Err(e) => format_named(value@) is None && e.code == ErrorCode::UnsupportedFormat,
            },
    {
        let png = ['p', 'n', 'g'];
        let jpg = ['j', 'p', 'g'];
        let jpeg = ['j', 'p', 'e', 'g'];
        assert(png@ =~= seq!['p', 'n', 'g']);
        assert(jpg@ =~= seq!['j', 'p', 'g']);
        assert(jpeg@ =~= seq!['j', 'p', 'e', 'g']);
        if lowered_is(value, &png) {
            Ok(Format::Png)
        } else if lowered_is(value, &jpg) || lowered_is(value, &jpeg) {
            Ok(Format::Jpeg)
        } else {
            Err(PicError::new(ErrorCode::UnsupportedFormat, "supported output formats: png, jpeg (jpg)"))
        }
    }
}

impl std::str::FromStr for Format {
    type Err = PicError;

    /// As `Format::parse`.
    fn from_str(value: &str) -> (r: Result<Self, PicError>)
        ensures
            match r {
                Ok(f) => format_named(value@) == Some(f),
                Err(e) => format_named(value@) is None && e.code == ErrorCode::UnsupportedFormat,
            },
    {
        Format::parse(value)
    }
}

#[derive(Debug, Clone, Copy, Default)]
pub struct EncodeOptions {
    pub format: Option<Format>,
    /// None selects 90 for JPEG. Specifying this for PNG is an error.
    pub jpeg_quality: Option<u8>,
    /// PNG deflate level 0..9 (default 6); invalid for JPEG.
    pub png_compression: Option<u8>,
    /// Explicit opaque sRGB background for linear-light JPEG flattening.
    pub jpeg_background: Option<RgbaColor>,
}

#[derive(Debug, Clone, Copy, PartialEq, Eq)]
pub struct ResolvedEncoding {
    pub format: Format,
    pub jpeg_quality: Option<u8>,
    pub png_compression: Option<u8>,
    pub jpeg_background: Option<RgbaColor>,
}

/// The encoding that `options` resolve to when the output's extension is `extension`, or
/// the code of the refusal. An explicit format wins over the extension; JPEG quality must be
/// 1..=100 and PNG compression 0..=9, each only for its own format; a JPEG background must be
/// opaque. Defaults: quality 90 for JPEG, compression 6 for PNG.
pub open spec fn encoding_outcome(o: EncodeOptions, extension: Option<Seq<char>>) -> Result<
    ResolvedEncoding,
    ErrorCode,
> {
    let format = match o.format {
        Some(f) => Some(f),
        None => match extension {
            Some(e) => format_named(e),
            None => None,
        },
    };
    match format {
        None => Err(ErrorCode::UnsupportedFormat),
        Some(format) => if o.jpeg_quality matches Some(q) && !(1 <= q <= 100) {
            Err(ErrorCode::InvalidArgument)
        } else if format == Format::Png && (o.jpeg_quality is Some || o.jpeg_background is Some) {
            Err(ErrorCode::InvalidArgument)
        } else if o.png_compression matches Some(level) && level > 9 {
            Err(ErrorCode::InvalidArgument)
        } else if format == Format::Jpeg && o.png_compression is Some {
            Err(ErrorCode::InvalidArgument)
        } else if o.jpeg_background matches Some(c) && c.0[3] != 255 {
            Err(ErrorCode::InvalidArgument)
        } else {
            Ok(
                ResolvedEncoding {
                    format,
                    jpeg_quality: if format == Format::Jpeg {
                        Some(
                            match o.jpeg_quality {
                                Some(q) => q,
                                None => 90u8,
                            },
                        )
                    } else {
                        None
                    },
                    png_compression: if format == Format::Png {
                        Some(
                            match o.png_compression {
                                Some(c) => c,
                                None => 6u8,
                            },
                        )
                    } else {
                        None
                    },
                    jpeg_background: o.jpeg_background,
                },
            )
        },
    }
}

/// An explicit format wins over the output's extension: with `o.format == Some(f)`, what
/// `o` resolves to is the same whatever the extension (or none), and an encoding it resolves
/// to has format `f`. Without a requested quality, compression or background, it resolves
/// to `f` with the defaults (quality 90 for JPEG, compression 6 for PNG).
pub proof fn explicit_format_wins(o: EncodeOptions, a: Option<Seq<char>>, b: Option<Seq<char>>)
    requires
        o.format is Some,
    ensures
        encoding_outcome(o, a) == encoding_outcome(o, b),
        encoding_outcome(o, a) matches Ok(e) ==> e.format == o.format->0,
        o.jpeg_quality is None && o.png_compression is None && o.jpeg_background is None ==> encoding_outcome(o, a)
            == Ok::<ResolvedEncoding, ErrorCode>(
            ResolvedEncoding {
                format: o.format->0,
                jpeg_quality: if o.format->0 == Format::Jpeg { Some(90u8) } else { None },
                png_compression: if o.format->0 == Format::Png { Some(6u8) } else { None },
                jpeg_background: None,
            },
        ),
{
}

/// The last component of a `/`-separated path text, after any trailing `/`, up to the
/// `/` before it.
pub open spec fn tail_segment(t: Seq<char>) -> Seq<char>
    decreases t.len(),
{
    if t.len() == 0 || t.last() == '/' {
        Seq::empty()
    } else {
        tail_segment(t.drop_last()).push(t.last())
    }
}

/// The file name of a path text, as `Path::file_name` reads it: trailing `/` and `.`
/// components are passed over, and a final `..`, or none at all, names no file.
pub open spec fn file_name(t: Seq<char>) -> Option<Seq<char>>
    decreases t.len(),
{
    if t.len() == 0 {
        None
    } else if t.last() == '/' {
        file_name(t.drop_last())
    } else if tail_segment(t) == seq!['.'] {
        file_name(t.drop_last())
    } else if tail_segment(t) == seq!['.', '.'] {
        None
    } else {
        Some(tail_segment(t))
    }
}

/// The position of the last `c` in `s`.
pub open spec fn last_pos(s: Seq<char>, c: char) -> Option<int>
    decreases s.len(),
{
    if s.len() == 0 {
        None
    } else if s.last() == c {
        Some(s.len() - 1)
    } else {
        last_pos(s.drop_last(), c)
    }
}

/// The extension of a path text, as `Path::extension` reads it: what follows the last `.`
/// of the file name, unless that `.` begins the name or there is none.
pub open spec fn extension_of(t: Seq<char>) -> Option<Seq<char>> {
    match file_name(t) {
        None => None,
        Some(n) => match last_pos(n, '.') {
            None => None,
            Some(i) => if i == 0 {
                None
            } else {
                Some(n.skip(i + 1))
            },
        },
    }
}

proof fn lemma_tail_segment(s: Seq<char>, start: int)
    requires
        0 <= start <= s.len(),
        start == 0 || s[start - 1] == '/',
        forall|k: int| start <= k < s.len() ==> s[k] != '/',
    ensures
        tail_segment(s) == s.subrange(start, s.len() as int),
    decreases s.len() - start,
{
    if s.len() == start {
        assert(s.subrange(start, start) =~= Seq::<char>::empty());
    } else {
        lemma_tail_segment(s.drop_last(), start);
        assert(s.subrange(start, s.len() as int) =~= s.drop_last().subrange(start, s.len() - 1).push(s.last()));
    }
}

proof fn lemma_last_pos(s: Seq<char>, c: char, m: int)
    requires
        0 <= m <= s.len(),
        forall|k: int| m <= k < s.len() ==> s[k] != c,
        m == 0 || s[m - 1] == c,
    ensures
        last_pos(s, c) == (if m == 0 {
            None
        } else {
            Some(m - 1)
        }),
    decreases s.len() - m,
{
    if s.len() > m {
        lemma_last_pos(s.drop_last(), c, m);
    }
}

/// Where the file name of `t` lies in it.
fn file_name_range(t: &str) -> (r: Option<(usize, usize)>)
    ensures
        match r {
            Some((a, b)) => a <= b <= t@.len() && file_name(t@) == Some(t@.subrange(a as int, b as int)),
            None => file_name(t@) is None,
        },
{
    let n = t.unicode_len();
    let mut end: usize = n;
    assert(t@.take(n as int) =~= t@);
    loop
        invariant
            end <= n,
            n == t@.len(),
            file_name(t@) == file_name(t@.take(end as int)),
        decreases end,
    {
        if end == 0 {
            return None;
        }
        assert(t@.take(end - 1) =~= t@.take(end as int).drop_last());
        if t.get_char(end - 1) == '/' {
            end -= 1;
        } else {
            let mut start: usize = end;
            while start > 0 && t.get_char(start - 1) != '/'
                invariant
                    start <= end,
                    end <= n,
                    n == t@.len(),
                    forall|k: int| start <= k < end ==> t@[k] != '/',
                decreases start,
            {
                start -= 1;
            }
            proof {
                lemma_tail_segment(t@.take(end as int), start as int);
                assert(t@.take(end as int).subrange(start as int, end as int) =~= t@.subrange(
                    start as int,
                    end as int,
                ));
            }
            if end - start == 1 && t.get_char(start) == '.' {
                assert(t@.subrange(start as int, end as int) =~= seq!['.']);
                end -= 1;
            } else if end - start == 2 && t.get_char(start) == '.' && t.get_char(start + 1) == '.' {
                assert(t@.subrange(start as int, end as int) =~= seq!['.', '.']);
                return None;
            } else {
                proof {
                    let seg = t@.subrange(start as int, end as int);
                    if seg == seq!['.'] {
                        assert(seg[0] == t@[start as int]);
                    }
                    if seg == seq!['.', '.'] {
                        assert(seg[0] == t@[start as int] && seg[1] == t@[start + 1]);
                    }
                }
                return Some((start, end));
            }
        }
    }
}

/// Where the extension of `t` lies in it.
fn extension_range(t: &str) -> (r: Option<(usize, usize)>)
    ensures
        match r {
            Some((a, b)) => a <= b <= t@.len() && extension_of(t@) == Some(t@.subrange(a as int, b as int)),
            None => extension_of(t@) is None,
        },
{
    match file_name_range(t) {
        None => None,
        Some((a, b)) => {
            let ghost name = t@.subrange(a as int, b as int);
            let mut d: usize = b;
            while d > a && t.get_char(d - 1) != '.'
                invariant
                    a <= d <= b,
                    b <= t@.len(),
                    name == t@.subrange(a as int, b as int),
                    forall|k: int| d <= k < b ==> t@[k] != '.',
                decreases d,
            {
                d -= 1;
            }
            proof {
                lemma_last_pos(name, '.', d - a);
            }
            if d == a || d - 1 == a {
                None
            } else {
                assert(name.skip(d - a) =~= t@.subrange(d as int, b as int));
                Some((d, b))
            }
        },
    }
}

/// Whether the characters `start..end` of `value`, ASCII-lowered, spell `word`.
fn lowered_range_is(value: &str, start: usize, end: usize, spelled: &[char]) -> (r: bool)
    requires
        start <= end <= value@.len(),
    ensures
        r == (lowered(value@.subrange(start as int, end as int)) == spelled@),
{
    let ghost word = spelled@;
    let ghost part = value@.subrange(start as int, end as int);
    if end - start != spelled.len() {
        assert(lowered(part).len() != word.len());
        return false;
    }
    let mut i: usize = 0;
    while i < end - start
        invariant
            start <= end <= value@.len(),
            part == value@.subrange(start as int, end as int),
            end - start == word.len(),
            spelled@ == word,
            i <= end - start,
            forall|j: int| 0 <= j < i ==> ascii_lower(part[j]) == word[j],
        decreases end - start - i,
    {
        if lower_char(value.get_char(start + i)) != spelled[i] {
            assert(lowered(part)[i as int] != word[i as int]);
            return false;
        }
        i += 1;
    }
    assert(lowered(part) =~= word);
    true
}

/// The format that the characters `start..end` of `value` name.
fn format_in(value: &str, start: usize, end: usize) -> (r: Option<Format>)
    requires
        start <= end <= value@.len(),
    ensures
        r == format_named(value@.subrange(start as int, end as int)),
{
    let png = ['p', 'n', 'g'];
    let jpg = ['j', 'p', 'g'];
    let jpeg = ['j', 'p', 'e', 'g'];
    assert(png@ =~= seq!['p', 'n', 'g']);
    assert(jpg@ =~= seq!['j', 'p', 'g']);
    assert(jpeg@ =~= seq!['j', 'p', 'e', 'g']);
    if lowered_range_is(value, start, end, &png) {
        Some(Format::Png)
    } else if lowered_range_is(value, start, end, &jpg) || lowered_range_is(value, start, end, &jpeg) {
        Some(Format::Jpeg)
    } else {
        None
    }
}

/// Whether `r` is what `o` resolves to for the extension `extension`.
pub open spec fn resolves_to(o: EncodeOptions, extension: Option<Seq<char>>, r: Result<ResolvedEncoding, PicError>) -> bool {
    match r {
        Ok(e) => encoding_outcome(o, extension) == Ok::<ResolvedEncoding, ErrorCode>(e),
        Err(e) => encoding_outcome(o, extension) == Err::<ResolvedEncoding, ErrorCode>(e.code),
    }
}

pub open spec fn text_of(o: Option<&str>) -> Option<Seq<char>> {
    match o {
        Some(s) => Some(s@),
        None => None,
    }
}

fn invalid<T>(message: &str) -> (r: Result<T, PicError>)
    ensures
        r matches Err(e) && e.code == ErrorCode::InvalidArgument,
{
    Err(PicError::new(ErrorCode::InvalidArgument, message))
}

impl EncodeOptions {
    /// Resolve against an output whose extension text is `extension` (if it has one).
    pub fn resolve_extension(&self, extension: Option<&str>) -> (r: Result<ResolvedEncoding, PicError>)
        ensures
            match r {
                Ok(e) => encoding_outcome(*self, text_of(extension)) == Ok::<
                    ResolvedEncoding,
                    ErrorCode,
                >(e),
                Err(e) => encoding_outcome(*self, text_of(extension)) == Err::<
                    ResolvedEncoding,
                    ErrorCode,
                >(e.code),
            },
    {
        let format = match self.format {
            Some(format) => format,
            None => match extension {
                Some(ext) => Format::parse(ext)?,
                None => {
                    return Err(PicError::new(
                        ErrorCode::UnsupportedFormat,
                        "output requires .png/.jpg/.jpeg or an explicit --format",
                    ));
                },
            },
        };
        if let Some(quality) = self.jpeg_quality {
            if !(1 <= quality && quality <= 100) {
                return invalid("JPEG quality must be in [1, 100]");
            }
        }
        if format == Format::Png && (self.jpeg_quality.is_some() || self.jpeg_background.is_some()) {
            return invalid("JPEG quality/background are not PNG parameters");
        }
        if let Some(level) = self.png_compression {
            if level > 9 {
                return invalid("PNG compression must be in [0, 9]");
            }
        }
        if format == Format::Jpeg && self.png_compression.is_some() {
            return invalid("PNG compression is not a JPEG parameter");
        }
        if let Some(color) = self.jpeg_background {
            if color.0[3] != 255 {
                return invalid("JPEG background must be opaque");
            }
        }
        let jpeg_quality = if format == Format::Jpeg {
            Some(
                match self.jpeg_quality {
                    Some(q) => q,
                    None => 90,
                },
            )
        } else {
            None
        };
        let png_compression = if format == Format::Png {
            Some(
                match self.png_compression {
                    Some(c) => c,
                    None => 6,
                },
            )
        } else {
            None
        };
        Ok(ResolvedEncoding { format, jpeg_quality, png_compression, jpeg_background: self.jpeg_background })
    }

    /// Resolve against an output path: its extension selects the format unless one is given.
    pub fn resolve(&self, output: &str) -> (r: Result<ResolvedEncoding, PicError>)
        ensures
            resolves_to(*self, extension_of(output@), r),
            self.format matches Some(f) ==> (r matches Ok(e) ==> e.format == f),
            self.format is Some ==> resolves_to(*self, None, r),
    {
        proof {
            if self.format is Some {
                explicit_format_wins(*self, extension_of(output@), None);
            }
        }
        if self.format.is_some() {
            return self.resolve_extension(None);
        }
        match extension_range(output) {
            None => self.resolve_extension(None),
            Some((a, b)) => match format_in(output, a, b) {
                None => Err(
                    PicError::new(ErrorCode::UnsupportedFormat, "supported output formats: png, jpeg (jpg)"),
                ),
                Some(f) => {
                    let named = EncodeOptions {
                        format: Some(f),
                        jpeg_quality: self.jpeg_quality,
                        png_compression: self.png_compression,
                        jpeg_background: self.jpeg_background,
                    };
                    named.resolve_extension(None)
                },
            },
        }
    }
}

} // verus!
