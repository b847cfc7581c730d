//! Output selection and the exact values the sinks are driven by.
//!
//! The destination path's extension alone decides the sink: an animated GIF
//! container, an animated WebP container, a numbered-frame directory handed
//! to an external muxer, or the bare directory when the path has no
//! extension. An unrecognized extension is a fatal configuration error.

use vstd::prelude::*;

verus! {

use crate::params::Params;
use crate::text::str_eq;
use crate::text::spec_decimal;
use crate::text::u64_to_string;
use vstd::string::StrSliceExecFns;
use vstd::string::StringExecFns;

/// The characters after the last occurrence of `c`, or nothing when `c` does
/// not occur.
pub open spec fn suffix_after_last(s: Seq<char>, c: char) -> Option<Seq<char>>
    decreases s.len(),
{
    if s.len() == 0 {
        None
    } else if s.last() == c {
        Some(Seq::empty())
    } else {
        match suffix_after_last(s.drop_last(), c) {
            Some(t) => Some(t.push(s.last())),
            None => None,
        }
    }
}

/// The path without its trailing separators, which name no component of
/// their own.
pub open spec fn strip_trailing_separators(s: Seq<char>) -> Seq<char>
    decreases s.len(),
{
    if s.len() > 0 && s.last() == '/' {
        strip_trailing_separators(s.drop_last())
    } else {
        s
    }
}

/// The final path component: what follows the last path separator, trailing
/// separators ignored.
pub open spec fn spec_file_name(s: Seq<char>) -> Seq<char> {
    let stripped = strip_trailing_separators(s);
    match suffix_after_last(stripped, '/') {
        Some(t) => t,
        None => stripped,
    }
}

/// The extension of a path: what follows the last dot of the final path
/// component; nothing when that component has no dot or only a leading one.
pub open spec fn spec_extension(s: Seq<char>) -> Option<Seq<char>> {
    let f = spec_file_name(s);
    match suffix_after_last(f, '.') {
        None => None,
        Some(e) => if e.len() + 1 == f.len() {
            None
        } else {
            Some(e)
        },
    }
}

proof fn lemma_suffix_found(s: Seq<char>, c: char, i: int)
    requires
        0 <= i < s.len(),
        s[i] == c,
        forall|j: int| i < j < s.len() ==> s[j] != c,
    ensures
        suffix_after_last(s, c) == Some(s.subrange(i + 1, s.len() as int)),
    decreases s.len(),
{
    if i == s.len() - 1 {
        assert(s.subrange(i + 1, s.len() as int) =~= Seq::<char>::empty());
    } else {
        let d = s.drop_last();
        assert(s.last() != c);
        lemma_suffix_found(d, c, i);
        assert(d.subrange(i + 1, d.len() as int).push(s.last()) =~= s.subrange(
            i + 1,
            s.len() as int,
        ));
    }
}

proof fn lemma_suffix_none(s: Seq<char>, c: char)
    requires
        forall|j: int| 0 <= j < s.len() ==> s[j] != c,
    ensures
        suffix_after_last(s, c) is None,
    decreases s.len(),
{
    if s.len() == 0 {
    } else {
        lemma_suffix_none(s.drop_last(), c);
    }
}

/// Index of the last occurrence of a character, if any.
fn last_index_of(s: &str, c: char) -> (r: Option<usize>)
    ensures
        match r {
            Some(i) => i < s@.len() && s@[i as int] == c && (forall|j: int|
                i < j < s@.len() ==> s@[j] != c),
            None => forall|j: int| 0 <= j < s@.len() ==> s@[j] != c,
        },
{
    let n: usize = s.unicode_len();
    let mut i: usize = n;
    while i > 0
        invariant
            i <= n,
            n == s@.len(),
            forall|j: int| i <= j < n ==> s@[j] != c,
        decreases i,
    {
        let k = i - 1;
        if s.get_char(k) == c {
            return Some(k);
        }
        i = k;
    }
    None
}

/// The extension of the destination path, under `spec_extension`.
pub fn extension_of(path: &str) -> (r: Option<String>)
    ensures
        match r {
            Some(e) => spec_extension(path@) == Some(e@),
            None => spec_extension(path@) is None,
        },
{
    let full: usize = path.unicode_len();
    let mut m: usize = full;
    proof {
        assert(path@.take(full as int) =~= path@);
    }
    while m > 0 && path.get_char(m - 1) == '/'
        invariant
            m <= full,
            full == path@.len(),
            strip_trailing_separators(path@) == strip_trailing_separators(
                path@.take(m as int),
            ),
        decreases m,
    {
        proof {
            assert(path@.take(m as int).last() == path@[m - 1]);
            assert(path@.take(m as int).drop_last() =~= path@.take(m - 1));
        }
        m -= 1;
    }
    proof {
        if m == 0 {
            assert(path@.take(0) =~= Seq::<char>::empty());
        } else {
            assert(path@.take(m as int).last() == path@[m - 1]);
        }
        assert(strip_trailing_separators(path@.take(m as int)) == path@.take(m as int));
    }
    let trimmed: &str = path.substring_char(0, m);
    proof {
        assert(path@.subrange(0, m as int) =~= path@.take(m as int));
        assert(trimmed@ == strip_trailing_separators(path@));
    }
    let ghost s = trimmed@;
    let n: usize = trimmed.unicode_len();
    let start: usize = match last_index_of(trimmed, '/') {
        Some(i) => {
            proof {
                lemma_suffix_found(s, '/', i as int);
            }
            i + 1
        },
        None => {
            proof {
                lemma_suffix_none(s, '/');
            }
            0
        },
    };
    proof {
        assert(spec_file_name(s) =~= s.subrange(start as int, n as int));
    }
    let ghost f = spec_file_name(s);
    match last_index_of(trimmed, '.') {
        None => {
            proof {
                assert forall|j: int| 0 <= j < f.len() implies f[j] != '.' by {
                    assert(f[j] == s[start + j]);
                }
                lemma_suffix_none(f, '.');
            }
            None
        },
        Some(d) => {
            if d < start {
                proof {
                    assert forall|j: int| 0 <= j < f.len() implies f[j] != '.' by {
                        assert(f[j] == s[start + j]);
                        assert(start + j > d);
                    }
                    lemma_suffix_none(f, '.');
                }
                None
            } else {
                proof {
                    assert(f[d - start] == s[d as int]);
                    assert forall|j: int| d - start < j < f.len() implies f[j] != '.' by {
                        assert(f[j] == s[start + j]);
                        assert(start + j > d);
                    }
                    lemma_suffix_found(f, '.', d - start);
                    assert(f.subrange(d - start + 1, f.len() as int) =~= s.subrange(
                        d + 1,
                        n as int,
                    ));
                }
                if d == start {
                    None
                } else {
                    let e = trimmed.substring_char(d + 1, n);
                    Some(e.to_owned())
                }
            }
        },
    }
}

/// The sink a destination path selects.
#[derive(Clone, Copy, Debug, PartialEq, Eq, Structural)]
pub enum OutputKind {
    /// Animated GIF container written to the path.
    Gif,
    /// Animated WebP container written to the path.
    Webp,
    /// Numbered-frame directory handed to the external video muxer.
    Webm,
    /// Numbered-frame directory left on disk as the artifact.
    Frames,
    /// An extension no sink recognizes: a fatal configuration error.
    Unrecognized,
}

/// Chooses the sink from the destination path's extension: `gif`, `webp` and
/// `webm` name their containers, no extension selects the bare frame
/// directory, and anything else is rejected.
pub fn classify_output(path: &str) -> (k: OutputKind)
    ensures
        k == OutputKind::Gif <==> spec_extension(path@) == Some("gif"@),
        k == OutputKind::Webp <==> spec_extension(path@) == Some("webp"@),
        k == OutputKind::Webm <==> spec_extension(path@) == Some("webm"@),
        k == OutputKind::Frames <==> spec_extension(path@) is None,
        k == OutputKind::Unrecognized <==> (spec_extension(path@) is Some && spec_extension(path@)
            != Some("gif"@) && spec_extension(path@) != Some("webp"@) && spec_extension(path@)
            != Some("webm"@)),
{
    proof {
        reveal_strlit("gif");
        reveal_strlit("webp");
        reveal_strlit("webm");
        assert("gif"@.len() == 3);
        assert("webp"@.len() == 4);
        assert("webm"@.len() == 4);
        assert("webp"@[3] != "webm"@[3]);
    }
    match extension_of(path) {
        None => OutputKind::Frames,
        Some(e) => {
            if str_eq(e.as_str(), "gif") {
                OutputKind::Gif
            } else if str_eq(e.as_str(), "webp") {
                OutputKind::Webp
            } else if str_eq(e.as_str(), "webm") {
                OutputKind::Webm
            } else {
                OutputKind::Unrecognized
            }
        },
    }
}

/// The argument list of the external muxer invocation, in order: overwrite,
/// input framerate, how often the input repeats beyond the first pass, a
/// glob over the numbered frames, the fixed video codec, the optional
/// bitrate, and the destination.
pub open spec fn spec_mux_args(
    framerate: u32,
    loops: u32,
    bitrate: Option<Seq<char>>,
    frames_dir: Seq<char>,
    dest: Seq<char>,
) -> Seq<Seq<char>> {
    let base = seq![
        "-y"@,
        "-framerate"@,
        spec_decimal(framerate as int),
        "-stream_loop"@,
        spec_decimal(loops - 1),
        "-pattern_type"@,
        "glob"@,
        "-i"@,
        frames_dir + "/*.png"@,
        "-c:v"@,
        "libvpx-vp9"@,
    ];
    let tail = match bitrate {
        Some(b) => seq!["-b:v"@, b, dest],
        None => seq![dest],
    };
    base + tail
}

impl Params {
    /// Builds the external muxer's argument list for frames read from the
    /// given directory.
    pub fn mux_args(&self, frames_dir: &str) -> (args: Vec<String>)
        requires
            self.loops >= 1,
        ensures
            self.bitrate is Some ==> args.deep_view() == spec_mux_args(
                self.framerate,
                self.loops,
                Some(self.bitrate->0@),
                frames_dir@,
                self.filename@,
            ),
            self.bitrate is None ==> args.deep_view() == spec_mux_args(
                self.framerate,
                self.loops,
                None,
                frames_dir@,
                self.filename@,
            ),
    {
        let mut args: Vec<String> = Vec::new();
        args.push(String::from_str("-y"));
        args.push(String::from_str("-framerate"));
        args.push(u64_to_string(self.framerate as u64));
        args.push(String::from_str("-stream_loop"));
        args.push(u64_to_string((self.loops - 1) as u64));
        args.push(String::from_str("-pattern_type"));
        args.push(String::from_str("glob"));
        args.push(String::from_str("-i"));
        args.push(String::from_str(frames_dir).concat("/*.png"));
        args.push(String::from_str("-c:v"));
        args.push(String::from_str("libvpx-vp9"));
        match &self.bitrate {
            Some(b) => {
                args.push(String::from_str("-b:v"));
                args.push(b.clone());
            },
            None => {},
        }
        args.push(self.filename.clone());
        proof {
            if self.bitrate is Some {
                assert(args.deep_view() =~~= spec_mux_args(
                    self.framerate,
                    self.loops,
                    Some(self.bitrate->0@),
                    frames_dir@,
                    self.filename@,
                ));
            } else {
                assert(args.deep_view() =~~= spec_mux_args(
                    self.framerate,
                    self.loops,
                    None,
                    frames_dir@,
                    self.filename@,
                ));
            }
        }
        args
    }
}

} // verus!
