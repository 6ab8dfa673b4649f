//! Input formats: their names, detection from the first bytes of a
//! capture, and the label shown for a capture.

use vstd::prelude::*;

use crate::obmp_writer::{magic_bytes, MAGIC};
use crate::text::str_eq;

verus! {

/// How a capture is framed.
#[derive(Debug, Clone, Copy, PartialEq, Eq, Structural)]
pub enum InputFormat {
    /// Decide from the first bytes.
    Auto,
    /// Concatenated RFC 7854 frames.
    RawBmp,
    /// The `.bmpd` container.
    Bmpd,
}

/// The command-line name of a format.
pub open spec fn format_name(f: InputFormat) -> Seq<char> {
    match f {
        InputFormat::Auto => "auto"@,
        InputFormat::RawBmp => "raw-bmp"@,
        InputFormat::Bmpd => "bmpd"@,
    }
}

/// The message for a name that is no format.
pub open spec fn unknown_format_message(s: Seq<char>) -> Seq<char> {
    "unknown format '"@ + s + "'. Expected 'auto', 'raw-bmp' or 'bmpd'"@
}

impl InputFormat {
    /// The command-line name: `auto`, `raw-bmp` or `bmpd`.
    pub fn as_str(&self) -> (r: &'static str)
        ensures
            r@ == format_name(*self),
    {
        match self {
            InputFormat::Auto => "auto",
            InputFormat::RawBmp => "raw-bmp",
            InputFormat::Bmpd => "bmpd",
        }
    }

    /// Reads a format from its command-line name.
    pub fn parse(s: &str) -> (r: Result<InputFormat, String>)
        ensures
            match r {
                Ok(f) => format_name(f) == s@,
                Err(m) => {
                    &&& m@ == unknown_format_message(s@)
                    &&& forall|f: InputFormat| format_name(f) != s@
                },
            },
    {
        proof {
            reveal_strlit("auto");
            reveal_strlit("raw-bmp");
            reveal_strlit("bmpd");
        }
        if str_eq(s, "auto") {
            Ok(InputFormat::Auto)
        } else if str_eq(s, "raw-bmp") {
            Ok(InputFormat::RawBmp)
        } else if str_eq(s, "bmpd") {
            Ok(InputFormat::Bmpd)
        } else {
            let mut m = String::from_str("unknown format '");
            m.append(s);
            m.append("'. Expected 'auto', 'raw-bmp' or 'bmpd'");
            proof {
                assert forall|f: InputFormat| format_name(f) != s@ by {
                    match f {
                        InputFormat::Auto => {},
                        InputFormat::RawBmp => {},
                        InputFormat::Bmpd => {},
                    }
                }
            }
            Err(m)
        }
    }
}

/// The format detected from the first bytes of a capture: the container
/// when they are its magic, raw frames otherwise (a `0x03` version byte,
/// and also anything unknown, empty or short, so that the frame parser
/// reports what is wrong).
pub open spec fn detected_format(head: Seq<u8>) -> InputFormat {
    if head.len() >= 13 && head.subrange(0, 13) == magic_bytes() {
        InputFormat::Bmpd
    } else {
        InputFormat::RawBmp
    }
}

/// Detects the format from the first bytes of a capture.
pub fn detect_format_from_bytes(head: &[u8]) -> (r: InputFormat)
    ensures
        r == detected_format(head@),
{
    if head.len() < 13 {
        return InputFormat::RawBmp;
    }
    let mut i: usize = 0;
    while i < 13
        invariant
            head@.len() >= 13,
            i <= 13,
            MAGIC@ == magic_bytes(),
            forall|j: int| 0 <= j < i ==> head@[j] == magic_bytes()[j],
        decreases 13 - i,
    {
        if head[i] != MAGIC[i] {
            proof {
                assert(head@.subrange(0, 13)[i as int] != magic_bytes()[i as int]);
            }
            return InputFormat::RawBmp;
        }
        i = i + 1;
    }
    proof {
        assert(head@.subrange(0, 13) =~= magic_bytes());
    }
    InputFormat::Bmpd
}

/// The last position of `c` in `s`, if any.
pub open spec fn last_pos_of(s: Seq<char>, c: char) -> Option<int>
    decreases s.len(),
{
    if s.len() == 0 {
        None
    } else if s.last() == c {
        Some(s.len() - 1)
    } else {
        last_pos_of(s.drop_last(), c)
    }
}

pub proof fn lemma_last_pos_in(s: Seq<char>, c: char)
    ensures
        last_pos_of(s, c) matches Some(i) ==> 0 <= i < s.len() && s[i] == c,
    decreases s.len(),
{
    if s.len() > 0 && s.last() != c {
        lemma_last_pos_in(s.drop_last(), c);
    }
}

/// The file name of a Unix path, as `std::path::Path::file_name` gives it:
/// the last component once trailing `/` and `.` components are passed
/// over; none for an empty path, the root, a lone `.` or a path ending in
/// `..`.
pub open spec fn file_name_of(p: Seq<char>) -> Option<Seq<char>>
    decreases p.len(),
{
    if p.len() == 0 {
        None
    } else if p.last() == '/' {
        file_name_of(p.drop_last())
    } else {
        let start = match last_pos_of(p, '/') {
            Some(i) => i + 1,
            None => 0,
        };
        let name = p.subrange(start, p.len() as int);
        if name == seq!['.'] {
            if start == 0 {
                None
            } else {
                proof {
                    lemma_last_pos_in(p, '/');
                }
                file_name_of(p.subrange(0, start - 1))
            }
        } else if name == seq!['.', '.'] {
            None
        } else {
            Some(name)
        }
    }
}

/// The extension of a path, as `std::path::Path::extension` documents it:
/// none without a file name, without a `.` in it, or when its only `.` is
/// the first character; otherwise the text after the file name's last `.`.
pub open spec fn path_extension(path: Seq<char>) -> Option<Seq<char>> {
    match file_name_of(path) {
        None => None,
        Some(name) => match last_pos_of(name, '.') {
            Some(j) => if j == 0 {
                None
            } else {
                Some(name.subrange(j + 1, name.len() as int))
            },
            None => None,
        },
    }
}

/// The extension of a path, with `std::path::Path::extension` (a path
/// given as text is valid UTF-8, so its extension converts back to text).
/// Claimed: the result is what the documentation of `Path::file_name` and
/// `Path::extension` says for a Unix path, as `path_extension` states it.
#[verifier::external_body]
fn extension_of(path: &str) -> (r: Option<String>)
    ensures
        match r {
            Some(e) => path_extension(path@) == Some(e@),
            None => path_extension(path@) is None,
        },
{
    std::path::Path::new(path).extension().and_then(|e| e.to_str()).map(|e| e.to_string())
}

/// The label shown for a capture read as raw frames, by its extension.
pub open spec fn raw_label(ext: Option<Seq<char>>) -> Seq<char> {
    if ext == Some("bz2"@) {
        "BMP compressed (bz2)"@
    } else if ext == Some("gz"@) {
        "BMP compressed (gzip)"@
    } else if ext == Some("bmpr"@) {
        "BMP replay format"@
    } else {
        "raw BMP frames"@
    }
}

/// The label shown for a capture at `path` read in format `f`.
pub open spec fn format_label_of(path: Seq<char>, f: InputFormat) -> Seq<char> {
    match f {
        InputFormat::Bmpd => "BMPWatch container"@,
        _ => raw_label(path_extension(path)),
    }
}

/// The label shown for a capture at `path` read in format `format`
/// (which has been resolved, so is not `Auto`).
pub fn format_label(path: &str, format: InputFormat) -> (r: String)
    requires
        format != InputFormat::Auto,
    ensures
        r@ == format_label_of(path@, format),
{
    match format {
        InputFormat::Bmpd => String::from_str("BMPWatch container"),
        _ => {
            let ext = extension_of(path);
            match ext {
                Some(e) => {
                    if str_eq(e.as_str(), "bz2") {
                        String::from_str("BMP compressed (bz2)")
                    } else if str_eq(e.as_str(), "gz") {
                        String::from_str("BMP compressed (gzip)")
                    } else if str_eq(e.as_str(), "bmpr") {
                        String::from_str("BMP replay format")
                    } else {
                        String::from_str("raw BMP frames")
                    }
                },
                None => String::from_str("raw BMP frames"),
            }
        },
    }
}

impl std::str::FromStr for InputFormat {
    type Err = String;

    fn from_str(s: &str) -> (r: Result<Self, Self::Err>)
        ensures
            match r {
                Ok(f) => format_name(f) == s@,
                Err(m) => {
                    &&& m@ == unknown_format_message(s@)
                    &&& forall|f: InputFormat| format_name(f) != s@
                },
            },
    {
        InputFormat::parse(s)
    }
}

} // verus!
