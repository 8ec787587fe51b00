//! Media classifier: decides from a path's extension whether it names a
//! media file, and which category it falls in. Paths are plain strings;
//! the final segment is the part after the last `/`, and the extension is
//! the part of the final segment after its last `.`, provided that dot is
//! not the segment's first character.

use vstd::prelude::*;

verus! {

/// The four media categories a file extension can fall in.
#[derive(Debug, Clone, Copy, PartialEq, Eq, Structural)]
pub enum MediaType {
    Video,
    Audio,
    Image,
    Project,
}

/// ASCII lowercase of one character; everything outside `A`..`Z` is kept.
pub open spec fn lower_char(c: char) -> char {
    if 'A' <= c && c <= 'Z' {
        ((c as u32) + 32) as char
    } else {
        c
    }
}

/// ASCII lowercase of a character sequence.
pub open spec fn lower(s: Seq<char>) -> Seq<char> {
    s.map_values(|c: char| lower_char(c))
}

/// The suffix of `s` after the last occurrence of `c`; `s` itself when
/// `c` does not occur.
pub open spec fn after_last(s: Seq<char>, c: char) -> Seq<char>
    decreases s.len(),
{
    if s.len() == 0 {
        s
    } else if s.last() == c {
        Seq::empty()
    } else {
        after_last(s.drop_last(), c).push(s.last())
    }
}

/// The final path segment: what follows the last `/`.
pub open spec fn final_segment(s: Seq<char>) -> Seq<char> {
    after_last(s, '/')
}

/// The extension of the final segment `f`, when `f` has a dot at a
/// position other than its first character.
pub open spec fn ext_of(f: Seq<char>) -> Option<Seq<char>> {
    if exists|i: int| 0 < i < f.len() && f[i] == '.' {
        Some(after_last(f, '.'))
    } else {
        None
    }
}

pub open spec fn is_video_ext(e: Seq<char>) -> bool {
    ||| e == "mp4"@ ||| e == "mov"@ ||| e == "avi"@ ||| e == "mkv"@
    ||| e == "wmv"@ ||| e == "flv"@ ||| e == "webm"@ ||| e == "m4v"@
    ||| e == "mpg"@ ||| e == "mpeg"@ ||| e == "mxf"@ ||| e == "r3d"@
    ||| e == "braw"@ ||| e == "ari"@
}

pub open spec fn is_audio_ext(e: Seq<char>) -> bool {
    ||| e == "mp3"@ ||| e == "wav"@ ||| e == "aac"@ ||| e == "flac"@
    ||| e == "ogg"@ ||| e == "m4a"@ ||| e == "aiff"@ ||| e == "aif"@
    ||| e == "wma"@
}

pub open spec fn is_image_ext(e: Seq<char>) -> bool {
    ||| e == "jpg"@ ||| e == "jpeg"@ ||| e == "png"@ ||| e == "gif"@
    ||| e == "bmp"@ ||| e == "tiff"@ ||| e == "tif"@ ||| e == "psd"@
    ||| e == "ai"@ ||| e == "eps"@ ||| e == "webp"@ ||| e == "exr"@
    ||| e == "dpx"@ ||| e == "tga"@ ||| e == "raw"@ ||| e == "cr2"@
}

pub open spec fn is_project_ext(e: Seq<char>) -> bool {
    ||| e == "prproj"@ ||| e == "mogrt"@ ||| e == "xml"@ ||| e == "aaf"@
    ||| e == "edl"@
}

/// The category of a lowercased extension, if any.
pub open spec fn category_of_ext(le: Seq<char>) -> Option<MediaType> {
    if is_video_ext(le) {
        Some(MediaType::Video)
    } else if is_audio_ext(le) {
        Some(MediaType::Audio)
    } else if is_image_ext(le) {
        Some(MediaType::Image)
    } else if is_project_ext(le) {
        Some(MediaType::Project)
    } else {
        None
    }
}

/// What `get_media_type` returns on a path: the category of the
/// case-folded extension of the path's final segment, if there is one.
pub open spec fn spec_media_type(s: Seq<char>) -> Option<MediaType> {
    match ext_of(final_segment(s)) {
        Some(e) => category_of_ext(lower(e)),
        None => None,
    }
}

/// What `is_hidden` returns on a path: the final segment begins with `.`.
pub open spec fn spec_is_hidden(s: Seq<char>) -> bool {
    final_segment(s).len() > 0 && final_segment(s)[0] == '.'
}

/// `after_last(s, c)` is the suffix following index `k` when `s[k] == c`
/// and no later index holds `c`.
proof fn lemma_after_last_at(s: Seq<char>, c: char, k: int)
    requires
        0 <= k < s.len(),
        s[k] == c,
        forall|j: int| k < j < s.len() ==> s[j] != c,
    ensures
        after_last(s, c) == s.subrange(k + 1, s.len() as int),
    decreases s.len(),
{
    if k == s.len() - 1 {
        assert(after_last(s, c) =~= s.subrange(k + 1, s.len() as int));
    } else {
        lemma_after_last_at(s.drop_last(), c, k);
        assert(after_last(s, c) =~= s.subrange(k + 1, s.len() as int));
    }
}

/// `after_last(s, c)` is all of `s` when `c` does not occur in `s`.
proof fn lemma_after_last_absent(s: Seq<char>, c: char)
    requires
        forall|j: int| 0 <= j < s.len() ==> s[j] != c,
    ensures
        after_last(s, c) == s,
    decreases s.len(),
{
    if s.len() > 0 {
        lemma_after_last_absent(s.drop_last(), c);
        assert(after_last(s, c) =~= s);
    }
}

/// Case-folding one character twice folds it once.
proof fn lemma_lower_char_idem(c: char)
    ensures
        lower_char(lower_char(c)) == lower_char(c),
{
}

/// Case-folding a sequence twice folds it once.
proof fn lemma_lower_idem(s: Seq<char>)
    ensures
        lower(lower(s)) == lower(s),
{
    assert forall|i: int| 0 <= i < s.len() implies lower(lower(s))[i] == lower(s)[i] by {
        lemma_lower_char_idem(s[i]);
    }
    assert(lower(lower(s)) =~= lower(s));
}

/// Case-folding commutes with taking the suffix after the last
/// occurrence of a character that folding fixes and that no other
/// character folds to.
proof fn lemma_after_last_lower(s: Seq<char>, c: char)
    requires
        lower_char(c) == c,
        forall|d: char| lower_char(d) == c ==> d == c,
    ensures
        after_last(lower(s), c) == lower(after_last(s, c)),
    decreases s.len(),
{
    let ls = lower(s);
    if s.len() == 0 {
        assert(ls =~= Seq::<char>::empty());
        assert(lower(after_last(s, c)) =~= Seq::<char>::empty());
    } else {
        assert(ls.last() == lower_char(s.last()));
        if s.last() == c {
            assert(after_last(ls, c) =~= Seq::<char>::empty());
            assert(lower(after_last(s, c)) =~= Seq::<char>::empty());
        } else {
            assert(ls.last() != c);
            lemma_after_last_lower(s.drop_last(), c);
            assert(ls.drop_last() =~= lower(s.drop_last()));
            let t = after_last(s.drop_last(), c);
            assert(lower(t.push(s.last())) =~= lower(t).push(lower_char(s.last())));
            assert(after_last(ls, c) == after_last(ls.drop_last(), c).push(ls.last()));
            assert(after_last(ls, c) == lower(after_last(s, c)));
        }
    }
}

/// Classification is case-insensitive: folding a path's case does not
/// change the category `spec_media_type` gives it.
pub proof fn lemma_classify_case_insensitive(s: Seq<char>)
    ensures
        spec_media_type(lower(s)) == spec_media_type(s),
{
    assert forall|d: char| lower_char(d) == '/' implies d == '/' by {}
    assert forall|d: char| lower_char(d) == '.' implies d == '.' by {}
    lemma_after_last_lower(s, '/');
    let f = final_segment(s);
    let lf = final_segment(lower(s));
    assert(lf == lower(f));
    assert(lf.len() == f.len());
    assert forall|i: int| 0 <= i < f.len() implies (lf[i] == '.') == (f[i] == '.') by {
        assert(lf[i] == lower_char(f[i]));
    }
    if exists|i: int| 0 < i < f.len() && f[i] == '.' {
        let i = choose|i: int| 0 < i < f.len() && f[i] == '.';
        assert(lf[i] == '.');
        assert(exists|j: int| 0 < j < lf.len() && lf[j] == '.');
        lemma_after_last_lower(f, '.');
        let e = after_last(f, '.');
        assert(ext_of(lf) == Some(lower(e)));
        lemma_lower_idem(e);
    } else {
        assert(ext_of(f) is None);
        if exists|j: int| 0 < j < lf.len() && lf[j] == '.' {
            let j = choose|j: int| 0 < j < lf.len() && lf[j] == '.';
            assert(f[j] == '.');
            assert(false);
        }
        assert(ext_of(lf) is None);
    }
}

/// ASCII lowercase of one character.
pub fn lower_char_x(c: char) -> (r: char)
    ensures
        r == lower_char(c),
{
    match c {
        'A' => 'a', 'B' => 'b', 'C' => 'c', 'D' => 'd', 'E' => 'e',
        'F' => 'f', 'G' => 'g', 'H' => 'h', 'I' => 'i', 'J' => 'j',
        'K' => 'k', 'L' => 'l', 'M' => 'm', 'N' => 'n', 'O' => 'o',
        'P' => 'p', 'Q' => 'q', 'R' => 'r', 'S' => 's', 'T' => 't',
        'U' => 'u', 'V' => 'v', 'W' => 'w', 'X' => 'x', 'Y' => 'y',
        'Z' => 'z',
        _ => c,
    }
}

/// True when the case-folded range `[start, end)` of `s` equals `lit`.
fn range_folds_to(s: &str, start: usize, end: usize, lit: &str) -> (b: bool)
    requires
        start <= end <= s@.len(),
    ensures
        b == (lower(s@.subrange(start as int, end as int)) == lit@),
{
    let n = lit.unicode_len();
    if end - start != n {
        proof {
            assert(lower(s@.subrange(start as int, end as int)).len() == end - start);
        }
        return false;
    }
    let mut i: usize = 0;
    while i < n
        invariant
            start <= end <= s@.len(),
            end - start == n == lit@.len(),
            i <= n,
            forall|j: int| 0 <= j < i ==> lower_char(s@[start + j]) == lit@[j],
        decreases n - i,
    {
        if lower_char_x(s.get_char(start + i)) != lit.get_char(i) {
            proof {
                let sub = s@.subrange(start as int, end as int);
                assert(lower(sub)[i as int] == lower_char(sub[i as int]));
            }
            return false;
        }
        i += 1;
    }
    proof {
        let sub = s@.subrange(start as int, end as int);
        assert(lower(sub) =~= lit@);
    }
    true
}

/// The index right after the last `/` of `s`; `0` when there is none.
/// Afterwards the final segment is `s@.subrange(r, n)`.
fn segment_start(s: &str) -> (r: usize)
    ensures
        r <= s@.len(),
        final_segment(s@) == s@.subrange(r as int, s@.len() as int),
        r > 0 ==> s@[r - 1] == '/',
        forall|j: int| r <= j < s@.len() ==> s@[j] != '/',
{
    let n = s.unicode_len();
    let mut i: usize = 0;
    let mut fstart: usize = 0;
    while i < n
        invariant
            i <= n,
            n == s@.len(),
            fstart <= i,
            fstart > 0 ==> s@[fstart - 1] == '/',
            forall|j: int| fstart <= j < i ==> s@[j] != '/',
        decreases n - i,
    {
        if s.get_char(i) == '/' {
            fstart = i + 1;
        }
        i += 1;
    }
    proof {
        if fstart > 0 {
            lemma_after_last_at(s@, '/', fstart - 1);
        } else {
            lemma_after_last_absent(s@, '/');
            assert(final_segment(s@) =~= s@.subrange(0, s@.len() as int));
        }
    }
    fstart
}

/// The media category a path's extension falls in, compared
/// case-insensitively against the four fixed tables; `None` for a path
/// without an extension or with one that no table lists.
pub fn get_media_type(path: &str) -> (r: Option<MediaType>)
    ensures
        r == spec_media_type(path@),
{
    let n = path.unicode_len();
    let fstart = segment_start(path);

    // Last dot strictly after the segment's first character.
    let mut i: usize = fstart;
    let mut dot: usize = 0;
    let mut found = false;
    while i < n
        invariant
            fstart <= i,
            i <= n || i == fstart,
            n == path@.len(),
            fstart <= n,
            found ==> fstart < dot && dot < i && path@[dot as int] == '.',
            found ==> forall|j: int| dot < j < i ==> path@[j] != '.',
            !found ==> forall|j: int| fstart < j < i ==> path@[j] != '.',
        decreases n - i,
    {
        if i > fstart && path.get_char(i) == '.' {
            dot = i;
            found = true;
        }
        i += 1;
    }
    proof {
        let f = final_segment(path@);
        assert(f == path@.subrange(fstart as int, n as int));
        if found {
            // The dot at `dot` is within the segment, past its first char.
            assert(f[dot - fstart] == '.');
            assert(0 < dot - fstart < f.len());
            lemma_after_last_at(f, '.', dot - fstart);
            assert(after_last(f, '.') =~= path@.subrange(dot + 1, n as int));
        } else {
            assert forall|k: int| 0 < k < f.len() implies f[k] != '.' by {
                assert(f[k] == path@[fstart + k]);
            }
        }
    }
    if !found {
        return None;
    }

    let es = dot + 1;
    if range_folds_to(path, es, n, "mp4") || range_folds_to(path, es, n, "mov")
        || range_folds_to(path, es, n, "avi") || range_folds_to(path, es, n, "mkv")
        || range_folds_to(path, es, n, "wmv") || range_folds_to(path, es, n, "flv")
        || range_folds_to(path, es, n, "webm") || range_folds_to(path, es, n, "m4v")
        || range_folds_to(path, es, n, "mpg") || range_folds_to(path, es, n, "mpeg")
        || range_folds_to(path, es, n, "mxf") || range_folds_to(path, es, n, "r3d")
        || range_folds_to(path, es, n, "braw") || range_folds_to(path, es, n, "ari") {
        Some(MediaType::Video)
    } else if range_folds_to(path, es, n, "mp3") || range_folds_to(path, es, n, "wav")
        || range_folds_to(path, es, n, "aac") || range_folds_to(path, es, n, "flac")
        || range_folds_to(path, es, n, "ogg") || range_folds_to(path, es, n, "m4a")
        || range_folds_to(path, es, n, "aiff") || range_folds_to(path, es, n, "aif")
        || range_folds_to(path, es, n, "wma") {
        Some(MediaType::Audio)
    } else if range_folds_to(path, es, n, "jpg") || range_folds_to(path, es, n, "jpeg")
        || range_folds_to(path, es, n, "png") || range_folds_to(path, es, n, "gif")
        || range_folds_to(path, es, n, "bmp") || range_folds_to(path, es, n, "tiff")
        || range_folds_to(path, es, n, "tif") || range_folds_to(path, es, n, "psd")
        || range_folds_to(path, es, n, "ai") || range_folds_to(path, es, n, "eps")
        || range_folds_to(path, es, n, "webp") || range_folds_to(path, es, n, "exr")
        || range_folds_to(path, es, n, "dpx") || range_folds_to(path, es, n, "tga")
        || range_folds_to(path, es, n, "raw") || range_folds_to(path, es, n, "cr2") {
        Some(MediaType::Image)
    } else if range_folds_to(path, es, n, "prproj") || range_folds_to(path, es, n, "mogrt")
        || range_folds_to(path, es, n, "xml") || range_folds_to(path, es, n, "aaf")
        || range_folds_to(path, es, n, "edl") {
        Some(MediaType::Project)
    } else {
        None
    }
}

/// True when the path classifies into some media category.
pub fn is_media_file(path: &str) -> (r: bool)
    ensures
        r == (spec_media_type(path@) is Some),
{
    get_media_type(path).is_some()
}

/// True when the path's final segment begins with `.`.
pub fn is_hidden(path: &str) -> (r: bool)
    ensures
        r == spec_is_hidden(path@),
{
    let n = path.unicode_len();
    let fstart = segment_start(path);
    fstart < n && path.get_char(fstart) == '.'
}

} // verus!
