//! Which walked files are images, and which entries are hidden.
use vstd::prelude::*;
use crate::text::{chars_of, str_eq, string_from_chars};
use crate::FoundFile;

verus! {

/// File extensions treated as images (compared case-insensitively).
pub const IMAGE_EXTENSIONS: [&'static str; 18] = [
    "arw", "bmp", "cr2", "cr3", "dng", "gif", "heic", "heif", "jpeg", "jpg", "nef", "orf", "png",
    "raf", "rw2", "tif", "tiff", "webp",
];

/// Result of walking a root: the image files found plus a count of entries
/// skipped because of I/O errors.
#[derive(Debug, Default)]
pub struct WalkOutcome {
    pub files: Vec<FoundFile>,
    pub errors: u64,
}

/// One of the image extensions, in lower case.
pub open spec fn image_extension(e: Seq<char>) -> bool {
        e == seq!['a', 'r', 'w']
        || e == seq!['b', 'm', 'p']
        || e == seq!['c', 'r', '2']
        || e == seq!['c', 'r', '3']
        || e == seq!['d', 'n', 'g']
        || e == seq!['g', 'i', 'f']
        || e == seq!['h', 'e', 'i', 'c']
        || e == seq!['h', 'e', 'i', 'f']
        || e == seq!['j', 'p', 'e', 'g']
        || e == seq!['j', 'p', 'g']
        || e == seq!['n', 'e', 'f']
        || e == seq!['o', 'r', 'f']
        || e == seq!['p', 'n', 'g']
        || e == seq!['r', 'a', 'f']
        || e == seq!['r', 'w', '2']
        || e == seq!['t', 'i', 'f']
        || e == seq!['t', 'i', 'f', 'f']
        || e == seq!['w', 'e', 'b', 'p']
}

/// `e` is one of the entries of [`IMAGE_EXTENSIONS`].
pub open spec fn listed_extension(e: Seq<char>) -> bool {
    exists|k: int| 0 <= k < IMAGE_EXTENSIONS@.len() && (#[trigger] IMAGE_EXTENSIONS@[k])@ == e
}

/// The extensions taken as images are exactly the entries of
/// [`IMAGE_EXTENSIONS`]: nothing else (no video such as `mov` or `mp4`) is
/// accepted, and every entry is.
pub proof fn lemma_image_extensions_are_the_listed_ones(e: Seq<char>)
    ensures
        image_extension(e) <==> listed_extension(e),
        !image_extension(seq!['m', 'o', 'v']),
        !image_extension(seq!['m', 'p', '4']),
{
    assert(IMAGE_EXTENSIONS@.len() == 18);
        reveal_strlit("arw");
        assert(IMAGE_EXTENSIONS@[0]@ =~= seq!['a', 'r', 'w']);
        reveal_strlit("bmp");
        assert(IMAGE_EXTENSIONS@[1]@ =~= seq!['b', 'm', 'p']);
        reveal_strlit("cr2");
        assert(IMAGE_EXTENSIONS@[2]@ =~= seq!['c', 'r', '2']);
        reveal_strlit("cr3");
        assert(IMAGE_EXTENSIONS@[3]@ =~= seq!['c', 'r', '3']);
        reveal_strlit("dng");
        assert(IMAGE_EXTENSIONS@[4]@ =~= seq!['d', 'n', 'g']);
        reveal_strlit("gif");
        assert(IMAGE_EXTENSIONS@[5]@ =~= seq!['g', 'i', 'f']);
        reveal_strlit("heic");
        assert(IMAGE_EXTENSIONS@[6]@ =~= seq!['h', 'e', 'i', 'c']);
        reveal_strlit("heif");
        assert(IMAGE_EXTENSIONS@[7]@ =~= seq!['h', 'e', 'i', 'f']);
        reveal_strlit("jpeg");
        assert(IMAGE_EXTENSIONS@[8]@ =~= seq!['j', 'p', 'e', 'g']);
        reveal_strlit("jpg");
        assert(IMAGE_EXTENSIONS@[9]@ =~= seq!['j', 'p', 'g']);
        reveal_strlit("nef");
        assert(IMAGE_EXTENSIONS@[10]@ =~= seq!['n', 'e', 'f']);
        reveal_strlit("orf");
        assert(IMAGE_EXTENSIONS@[11]@ =~= seq!['o', 'r', 'f']);
        reveal_strlit("png");
        assert(IMAGE_EXTENSIONS@[12]@ =~= seq!['p', 'n', 'g']);
        reveal_strlit("raf");
        assert(IMAGE_EXTENSIONS@[13]@ =~= seq!['r', 'a', 'f']);
        reveal_strlit("rw2");
        assert(IMAGE_EXTENSIONS@[14]@ =~= seq!['r', 'w', '2']);
        reveal_strlit("tif");
        assert(IMAGE_EXTENSIONS@[15]@ =~= seq!['t', 'i', 'f']);
        reveal_strlit("tiff");
        assert(IMAGE_EXTENSIONS@[16]@ =~= seq!['t', 'i', 'f', 'f']);
        reveal_strlit("webp");
        assert(IMAGE_EXTENSIONS@[17]@ =~= seq!['w', 'e', 'b', 'p']);
    if image_extension(e) {
        if e == seq!['a', 'r', 'w'] {
            assert(IMAGE_EXTENSIONS@[0]@ == e);
        }
        if e == seq!['b', 'm', 'p'] {
            assert(IMAGE_EXTENSIONS@[1]@ == e);
        }
        if e == seq!['c', 'r', '2'] {
            assert(IMAGE_EXTENSIONS@[2]@ == e);
        }
        if e == seq!['c', 'r', '3'] {
            assert(IMAGE_EXTENSIONS@[3]@ == e);
        }
        if e == seq!['d', 'n', 'g'] {
            assert(IMAGE_EXTENSIONS@[4]@ == e);
        }
        if e == seq!['g', 'i', 'f'] {
            assert(IMAGE_EXTENSIONS@[5]@ == e);
        }
        if e == seq!['h', 'e', 'i', 'c'] {
            assert(IMAGE_EXTENSIONS@[6]@ == e);
        }
        if e == seq!['h', 'e', 'i', 'f'] {
            assert(IMAGE_EXTENSIONS@[7]@ == e);
        }
        if e == seq!['j', 'p', 'e', 'g'] {
            assert(IMAGE_EXTENSIONS@[8]@ == e);
        }
        if e == seq!['j', 'p', 'g'] {
            assert(IMAGE_EXTENSIONS@[9]@ == e);
        }
        if e == seq!['n', 'e', 'f'] {
            assert(IMAGE_EXTENSIONS@[10]@ == e);
        }
        if e == seq!['o', 'r', 'f'] {
            assert(IMAGE_EXTENSIONS@[11]@ == e);
        }
        if e == seq!['p', 'n', 'g'] {
            assert(IMAGE_EXTENSIONS@[12]@ == e);
        }
        if e == seq!['r', 'a', 'f'] {
            assert(IMAGE_EXTENSIONS@[13]@ == e);
        }
        if e == seq!['r', 'w', '2'] {
            assert(IMAGE_EXTENSIONS@[14]@ == e);
        }
        if e == seq!['t', 'i', 'f'] {
            assert(IMAGE_EXTENSIONS@[15]@ == e);
        }
        if e == seq!['t', 'i', 'f', 'f'] {
            assert(IMAGE_EXTENSIONS@[16]@ == e);
        }
        if e == seq!['w', 'e', 'b', 'p'] {
            assert(IMAGE_EXTENSIONS@[17]@ == e);
        }
    }
    if listed_extension(e) {
        let k = choose|k: int| 0 <= k < IMAGE_EXTENSIONS@.len() && (#[trigger] IMAGE_EXTENSIONS@[k])@ == e;
        assert(k == 0 || k == 1 || k == 2 || k == 3 || k == 4 || k == 5 || k == 6 || k == 7 || k == 8 || k == 9 || k == 10 || k == 11 || k == 12 || k == 13 || k == 14 || k == 15 || k == 16 || k == 17);
    }
}

/// Position of the last `c` in `s`, or -1.
pub open spec fn last_index_of(s: Seq<char>, c: char) -> int
    decreases s.len(),
{
    if s.len() == 0 {
        -1
    } else if s.last() == c {
        s.len() - 1
    } else {
        last_index_of(s.drop_last(), c)
    }
}

/// The last component of a file path: what follows its last `/`.
pub open spec fn file_name(path: Seq<char>) -> Seq<char> {
    path.subrange(last_index_of(path, '/') + 1, path.len() as int)
}

/// The extension of a file name as `Path::extension` finds it: what follows
/// the last `.`, unless that dot starts the name or the name is `..`.
pub open spec fn extension(name: Seq<char>) -> Option<Seq<char>> {
    let d = last_index_of(name, '.');
    if name == seq!['.', '.'] || d <= 0 {
        None
    } else {
        Some(name.subrange(d + 1, name.len() as int))
    }
}

/// ASCII upper-case letters mapped to lower case, everything else kept.
pub open spec fn ascii_lower(c: char) -> char {
    if 'A' <= c <= 'Z' {
        ((c as u32) + 32) as char
    } else {
        c
    }
}

/// The file at `path` has an image extension, ignoring ASCII case.
pub open spec fn is_image_path(path: Seq<char>) -> bool {
    match extension(file_name(path)) {
        Some(e) => image_extension(e.map_values(|c: char| ascii_lower(c))),
        None => false,
    }
}

proof fn lemma_last_index_bounds(s: Seq<char>, c: char)
    ensures
        -1 <= last_index_of(s, c) < s.len(),
        last_index_of(s, c) >= 0 ==> s[last_index_of(s, c)] == c,
        forall|k: int| last_index_of(s, c) < k < s.len() ==> s[k] != c,
    decreases s.len(),
{
    if s.len() > 0 && s.last() != c {
        lemma_last_index_bounds(s.drop_last(), c);
        assert forall|k: int| last_index_of(s, c) < k < s.len() implies s[k] != c by {
            if k < s.len() - 1 {
                assert(s.drop_last()[k] == s[k]);
            }
        }
    }
}

/// Position of the last `c` in `s`, if any.
fn last_index(s: &Vec<char>, c: char) -> (r: Option<usize>)
    ensures
        match r {
            Some(i) => i == last_index_of(s@, c),
            None => last_index_of(s@, c) == -1,
        },
{
    let mut i: usize = s.len();
    proof {
        assert(s@.take(s@.len() as int) =~= s@);
    }
    while i > 0
        invariant
            i <= s@.len(),
            last_index_of(s@, c) == last_index_of(s@.take(i as int), c),
        decreases i,
    {
        proof {
            assert(s@.take(i as int).drop_last() =~= s@.take(i - 1));
        }
        if s[i - 1] == c {
            return Some(i - 1);
        }
        i -= 1;
    }
    None
}

/// Whether `e` (already lower case) is an image extension.
fn is_image_ext(e: &str) -> (r: bool)
    ensures
        r == image_extension(e@),
        r == listed_extension(e@),
{
    proof {
        lemma_image_extensions_are_the_listed_ones(e@);
        reveal_strlit("arw");
        assert("arw"@ =~= seq!['a', 'r', 'w']);
        reveal_strlit("bmp");
        assert("bmp"@ =~= seq!['b', 'm', 'p']);
        reveal_strlit("cr2");
        assert("cr2"@ =~= seq!['c', 'r', '2']);
        reveal_strlit("cr3");
        assert("cr3"@ =~= seq!['c', 'r', '3']);
        reveal_strlit("dng");
        assert("dng"@ =~= seq!['d', 'n', 'g']);
        reveal_strlit("gif");
        assert("gif"@ =~= seq!['g', 'i', 'f']);
        reveal_strlit("heic");
        assert("heic"@ =~= seq!['h', 'e', 'i', 'c']);
        reveal_strlit("heif");
        assert("heif"@ =~= seq!['h', 'e', 'i', 'f']);
        reveal_strlit("jpeg");
        assert("jpeg"@ =~= seq!['j', 'p', 'e', 'g']);
        reveal_strlit("jpg");
        assert("jpg"@ =~= seq!['j', 'p', 'g']);
        reveal_strlit("nef");
        assert("nef"@ =~= seq!['n', 'e', 'f']);
        reveal_strlit("orf");
        assert("orf"@ =~= seq!['o', 'r', 'f']);
        reveal_strlit("png");
        assert("png"@ =~= seq!['p', 'n', 'g']);
        reveal_strlit("raf");
        assert("raf"@ =~= seq!['r', 'a', 'f']);
        reveal_strlit("rw2");
        assert("rw2"@ =~= seq!['r', 'w', '2']);
        reveal_strlit("tif");
        assert("tif"@ =~= seq!['t', 'i', 'f']);
        reveal_strlit("tiff");
        assert("tiff"@ =~= seq!['t', 'i', 'f', 'f']);
        reveal_strlit("webp");
        assert("webp"@ =~= seq!['w', 'e', 'b', 'p']);
    }
    str_eq(e, "arw")
        || str_eq(e, "bmp")
        || str_eq(e, "cr2")
        || str_eq(e, "cr3")
        || str_eq(e, "dng")
        || str_eq(e, "gif")
        || str_eq(e, "heic")
        || str_eq(e, "heif")
        || str_eq(e, "jpeg")
        || str_eq(e, "jpg")
        || str_eq(e, "nef")
        || str_eq(e, "orf")
        || str_eq(e, "png")
        || str_eq(e, "raf")
        || str_eq(e, "rw2")
        || str_eq(e, "tif")
        || str_eq(e, "tiff")
        || str_eq(e, "webp")
}

/// Whether the file at `path` has an image extension (case-insensitive).
pub fn has_image_extension(path: &str) -> (r: bool)
    ensures
        r == is_image_path(path@),
{
    let chars = chars_of(path);
    proof {
        lemma_last_index_bounds(chars@, '/');
    }
    let n: usize = chars.len();
    let start: usize = match last_index(&chars, '/') {
        Some(i) => {
            assert(i < n);
            i + 1
        },
        None => 0,
    };
    let ghost name = file_name(path@);
    let mut name_chars: Vec<char> = Vec::new();
    let mut k: usize = start;
    while k < chars.len()
        invariant
            start <= k <= chars@.len(),
            chars@ == path@,
            name == chars@.subrange(start as int, chars@.len() as int),
            name_chars@ == name.take(k - start),
        decreases chars@.len() - k,
    {
        name_chars.push(chars[k]);
        k += 1;
        proof {
            assert(name_chars@ =~= name.take(k - start));
        }
    }
    proof {
        assert(name_chars@ =~= name);
    }
    if name_chars.len() == 2 && name_chars[0] == '.' && name_chars[1] == '.' {
        proof {
            assert(name =~= seq!['.', '.']);
        }
        return false;
    }
    proof {
        lemma_last_index_bounds(name, '.');
    }
    let dot: usize = match last_index(&name_chars, '.') {
        Some(i) => i,
        None => return false,
    };
    if dot == 0 {
        return false;
    }
    let from: usize = dot + 1;
    let ghost ext = name.subrange(dot + 1, name.len() as int);
    let mut lower: Vec<char> = Vec::new();
    let mut j: usize = from;
    while j < name_chars.len()
        invariant
            from <= j <= name_chars@.len(),
            name_chars@ == name,
            ext == name.subrange(from as int, name.len() as int),
            lower@ == ext.take(j - from).map_values(|c: char| ascii_lower(c)),
        decreases name_chars@.len() - j,
    {
        let c = name_chars[j];
        let l = if 'A' <= c && c <= 'Z' { ((c as u8) + 32) as char } else { c };
        proof {
            assert(l == ascii_lower(c));
        }
        lower.push(l);
        j += 1;
        proof {
            assert(lower@ =~= ext.take(j - from).map_values(|c: char| ascii_lower(c)));
        }
    }
    proof {
        assert(ext.take(ext.len() as int) =~= ext);
        assert(!(name =~= seq!['.', '.']));
    }
    let e = string_from_chars(&lower);
    is_image_ext(e.as_str())
}

/// Dot-prefixed entries are excluded, but an explicitly chosen hidden root
/// (depth 0) still scans.
pub fn is_hidden(depth: usize, name: &str) -> (r: bool)
    ensures
        r == (depth > 0 && name@.len() > 0 && name@[0] == '.'),
{
    if depth == 0 {
        return false;
    }
    let chars = chars_of(name);
    chars.len() > 0 && chars[0] == '.'
}

} // verus!
