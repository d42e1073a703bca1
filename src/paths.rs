//! Unix-style path text: file names, extensions, stems and joining.
use vstd::prelude::*;

verus! {

/// Index of the last occurrence of `c` in `s`, or -1 when there is none.
pub open spec fn last_index_of(s: Seq<char>, c: char) -> int
    decreases s.len(),
{
    if s.len() == 0 {
        -1
    } else if s.last() == c {
        s.len() - 1
    } else {
        last_index_of(s.drop_last(), c)
    }
}

/// The final component of a path: everything after its last `/` (empty
/// for a path that ends in a separator; walked file paths never do).
pub open spec fn file_name(p: Seq<char>) -> Seq<char> {
    p.subrange(last_index_of(p, '/') + 1, p.len() as int)
}

/// The extension of a file name: the text after its last `.`, unless that
/// dot is the first character (a hidden file such as `.zip` has none).
pub open spec fn extension(name: Seq<char>) -> Option<Seq<char>> {
    let d = last_index_of(name, '.');
    if d <= 0 {
        None
    } else {
        Some(name.subrange(d + 1, name.len() as int))
    }
}

/// A file name without its extension.
pub open spec fn file_stem(name: Seq<char>) -> Seq<char> {
    let d = last_index_of(name, '.');
    if d <= 0 {
        name
    } else {
        name.subrange(0, d)
    }
}

/// Joining `p` onto `base`: an absolute `p` replaces `base`; otherwise a
/// separator is put between them unless `base` is empty or already ends in one.
pub open spec fn join(base: Seq<char>, p: Seq<char>) -> Seq<char> {
    if p.len() > 0 && p[0] == '/' {
        p
    } else if base.len() == 0 || base.last() == '/' {
        base + p
    } else {
        base + seq!['/'] + p
    }
}

pub proof fn lemma_last_index_bounds(s: Seq<char>, c: char)
    ensures
        -1 <= last_index_of(s, c) < s.len(),
        last_index_of(s, c) >= 0 ==> s[last_index_of(s, c)] == c,
    decreases s.len(),
{
    if s.len() > 0 && s.last() != c {
        lemma_last_index_bounds(s.drop_last(), c);
    }
}

fn last_index(s: &str, c: char) -> (r: Option<usize>)
    ensures
        r == (if last_index_of(s@, c) < 0 {
            None::<usize>
        } else {
            Some(last_index_of(s@, c) as usize)
        }),
        -1 <= last_index_of(s@, c) < s@.len(),
        s@.len() <= usize::MAX,
{
    let n = s.unicode_len();
    let mut found: Option<usize> = None;
    let mut i: usize = 0;
    while i < n
        invariant
            i <= n,
            n == s@.len(),
            found == (if last_index_of(s@.subrange(0, i as int), c) < 0 {
                None::<usize>
            } else {
                Some(last_index_of(s@.subrange(0, i as int), c) as usize)
            }),
        decreases n - i,
    {
        proof {
            lemma_last_index_bounds(s@.subrange(0, i as int), c);
            assert(s@.subrange(0, i as int + 1).drop_last() =~= s@.subrange(0, i as int));
        }
        if s.get_char(i) == c {
            found = Some(i);
        }
        i = i + 1;
    }
    proof {
        assert(s@.subrange(0, n as int) =~= s@);
        lemma_last_index_bounds(s@, c);
    }
    found
}

/// The final component of `path`.
pub fn file_name_of(path: &str) -> (r: String)
    ensures
        r@ == file_name(path@),
{
    let n = path.unicode_len();
    let start: usize = match last_index(path, '/') {
        Some(i) => i + 1,
        None => 0,
    };
    String::from_str(path.substring_char(start, n))
}

/// Whether two texts are equal, character by character.
pub fn same_text(a: &str, b: &str) -> (r: bool)
    ensures
        r == (a@ == b@),
{
    let m = a.unicode_len();
    if m != b.unicode_len() {
        return false;
    }
    let mut i: usize = 0;
    while i < m
        invariant
            i <= m,
            m == a@.len(),
            m == b@.len(),
            forall|k: int| 0 <= k < i ==> a@[k] == b@[k],
        decreases m - i,
    {
        if a.get_char(i) != b.get_char(i) {
            return false;
        }
        i = i + 1;
    }
    assert(a@ =~= b@);
    true
}

/// Whether the file named by `path` has exactly the extension `ext`.
pub fn has_extension(path: &str, ext: &str) -> (r: bool)
    ensures
        r == (extension(file_name(path@)) == Some(ext@)),
{
    let name = file_name_of(path);
    let n = name.as_str().unicode_len();
    let dot = last_index(name.as_str(), '.');
    match dot {
        Some(d) => {
            if d == 0 {
                false
            } else {
                same_text(name.as_str().substring_char(d + 1, n), ext)
            }
        },
        None => false,
    }
}

/// The file name of `path` without its extension.
pub fn file_stem_of(path: &str) -> (r: String)
    ensures
        r@ == file_stem(file_name(path@)),
{
    let name = file_name_of(path);
    let dot = last_index(name.as_str(), '.');
    match dot {
        Some(d) => {
            if d == 0 {
                name
            } else {
                String::from_str(name.as_str().substring_char(0, d))
            }
        },
        None => name,
    }
}

/// `p` joined onto `base`.
pub fn join_path(base: &str, p: &str) -> (r: String)
    ensures
        r@ == join(base@, p@),
{
    let pn = p.unicode_len();
    let bn = base.unicode_len();
    if pn > 0 && p.get_char(0) == '/' {
        return String::from_str(p);
    }
    let mut out = String::from_str(base);
    if bn > 0 && base.get_char(bn - 1) != '/' {
        out.append("/");
        proof {
            reveal_strlit("/");
        }
    }
    out.append(p);
    out
}

} // verus!
