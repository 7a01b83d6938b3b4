use vstd::prelude::*;
use crate::text::{chars_of, push_char, string_from_chars};

verus! {

/// Index of the last `/` in `p[..end]`, or -1 when there is none.
pub open spec fn last_slash(p: Seq<char>, end: int) -> int
    decreases end,
{
    if end <= 0 {
        -1
    } else if p[end - 1] == '/' {
        end - 1
    } else {
        last_slash(p, end - 1)
    }
}

pub proof fn lemma_last_slash_bounds(p: Seq<char>, end: int)
    ensures
        end > 0 ==> -1 <= last_slash(p, end) < end,
        end > 0 ==> forall|i: int| last_slash(p, end) < i < end ==> #[trigger] p[i] != '/',
        end > 0 && last_slash(p, end) >= 0 ==> p[last_slash(p, end)] == '/',
    decreases end,
{
    if end > 0 && p[end - 1] != '/' {
        lemma_last_slash_bounds(p, end - 1);
        assert(last_slash(p, end) == last_slash(p, end - 1));
        if end == 1 {
            assert(last_slash(p, 0) == -1);
        }
    }
}

/// The final component of the `/`-separated path `p[..end]`, as `std::path::Path::file_name`
/// gives it on Unix: trailing `/` and `.` components are passed over, and a final `..`
/// (or no component at all, as in `/`) gives `None`.
pub open spec fn base_name_upto(p: Seq<char>, end: int) -> Option<Seq<char>>
    decreases end,
{
    if end <= 0 {
        None
    } else if p[end - 1] == '/' {
        base_name_upto(p, end - 1)
    } else {
        let start = last_slash(p, end) + 1;
        proof {
            lemma_last_slash_bounds(p, end);
        }
        let seg = p.subrange(start, end);
        if seg == seq!['.'] {
            base_name_upto(p, start)
        } else if seg == seq!['.', '.'] {
            None
        } else {
            Some(seg)
        }
    }
}

/// The file name of a remote path, or the whole path when it has none.
pub open spec fn file_name_or_path(p: Seq<char>) -> Seq<char> {
    match base_name_upto(p, p.len() as int) {
        Some(name) => name,
        None => p,
    }
}

/// The name of the file a remote path points at (`/data/app.log` gives `app.log`), or the
/// path itself when it names no file (as `/` or `a/..`).
pub fn remote_file_name(path: &str) -> (r: String)
    ensures
        r@ == file_name_or_path(path@),
{
    let c = chars_of(path);
    let ghost p = path@;
    let mut end = c.len();
    loop
        invariant
            c@ == p,
            p == path@,
            end <= p.len(),
            base_name_upto(p, p.len() as int) == base_name_upto(p, end as int),
        decreases end,
    {
        if end == 0 {
            return String::from_str(path);
        }
        if c[end - 1] == '/' {
            end -= 1;
        } else {
            let mut start = end;
            while start > 0 && c[start - 1] != '/'
                invariant
                    c@ == p,
                    0 < end <= p.len(),
                    start <= end,
                    p[end - 1] != '/',
                    last_slash(p, end as int) == last_slash(p, start as int),
                decreases start,
            {
                start -= 1;
            }
            proof {
                lemma_last_slash_bounds(p, end as int);
                assert(last_slash(p, start as int) + 1 == start as int);
            }
            let ghost seg = p.subrange(start as int, end as int);
            if end - start == 1 && c[start] == '.' {
                assert(seg =~= seq!['.']);
                end = start;
            } else if end - start == 2 && c[start] == '.' && c[start + 1] == '.' {
                assert(seg =~= seq!['.', '.']);
                return String::from_str(path);
            } else {
                proof {
                    let one = seq!['.'];
                    let two = seq!['.', '.'];
                    assert(seg.len() == end - start);
                    if end - start == 1 {
                        assert(seg[0] == c@[start as int]);
                        assert(one[0] == '.');
                        assert(seg != one);
                    }
                    if end - start == 2 {
                        assert(seg[0] == c@[start as int]);
                        assert(seg[1] == c@[start + 1]);
                        assert(two[0] == '.' && two[1] == '.');
                        assert(seg != two);
                    }
                    assert(one.len() == 1 && two.len() == 2);
                }
                return string_from_chars(c.as_slice(), start, end);
            }
        }
    }
}

/// `s` without its trailing `/` characters.
pub open spec fn trim_trailing_slashes(s: Seq<char>) -> Seq<char>
    decreases s.len(),
{
    if s.len() > 0 && s.last() == '/' {
        trim_trailing_slashes(s.drop_last())
    } else {
        s
    }
}

/// `s` without its leading `/` characters.
pub open spec fn trim_leading_slashes(s: Seq<char>) -> Seq<char>
    decreases s.len(),
{
    if s.len() > 0 && s[0] == '/' {
        trim_leading_slashes(s.drop_first())
    } else {
        s
    }
}

/// The remote path of entry `name` listed in directory `dir`.
pub open spec fn joined(dir: Seq<char>, name: Seq<char>) -> Seq<char> {
    if dir.len() > 0 && dir.last() == '/' {
        dir + name
    } else {
        dir.push('/') + name
    }
}

/// The part of `full` below `root`, without leading `/`; `full` itself when it does not
/// start with `root`.
pub open spec fn relative_to(full: Seq<char>, root: Seq<char>) -> Seq<char> {
    if root.len() <= full.len() && full.subrange(0, root.len() as int) == root {
        trim_leading_slashes(full.subrange(root.len() as int, full.len() as int))
    } else {
        full
    }
}

/// Normalize a remote directory: no trailing `/`.
pub fn trim_end_slashes(s: &str) -> (r: String)
    ensures
        r@ == trim_trailing_slashes(s@),
{
    let c = chars_of(s);
    let mut end = c.len();
    assert(c@.subrange(0, c@.len() as int) =~= c@);
    while end > 0 && c[end - 1] == '/'
        invariant
            c@ == s@,
            end <= c@.len(),
            trim_trailing_slashes(s@) == trim_trailing_slashes(c@.subrange(0, end as int)),
        decreases end,
    {
        assert(c@.subrange(0, end as int).drop_last() =~= c@.subrange(0, end - 1));
        end -= 1;
    }
    string_from_chars(c.as_slice(), 0, end)
}

/// Build the full remote path of entry `file_name` in `dir`.
pub fn join_remote(dir: &str, file_name: &str) -> (r: String)
    ensures
        r@ == joined(dir@, file_name@),
{
    let n = dir.unicode_len();
    let mut r = String::from_str(dir);
    if n == 0 || dir.get_char(n - 1) != '/' {
        push_char(&mut r, '/');
    }
    r.append(file_name);
    r
}

/// Relative path of `full_path` below `root` (see `relative_to`).
pub fn relative_path(full_path: &str, root: &str) -> (r: String)
    ensures
        r@ == relative_to(full_path@, root@),
{
    let f = chars_of(full_path);
    let t = chars_of(root);
    if t.len() > f.len() {
        return String::from_str(full_path);
    }
    let mut i: usize = 0;
    while i < t.len()
        invariant
            f@ == full_path@,
            t@ == root@,
            t@.len() <= f@.len(),
            i <= t@.len(),
            forall|k: int| 0 <= k < i ==> f@[k] == t@[k],
        decreases t@.len() - i,
    {
        if f[i] != t[i] {
            assert(f@.subrange(0, t@.len() as int)[i as int] != t@[i as int]);
            return String::from_str(full_path);
        }
        i += 1;
    }
    assert(f@.subrange(0, t@.len() as int) =~= t@);
    let mut start = t.len();
    while start < f.len() && f[start] == '/'
        invariant
            f@ == full_path@,
            t@.len() <= start <= f@.len(),
            trim_leading_slashes(f@.subrange(t@.len() as int, f@.len() as int))
                == trim_leading_slashes(f@.subrange(start as int, f@.len() as int)),
        decreases f@.len() - start,
    {
        assert(f@.subrange(start as int, f@.len() as int).drop_first() =~= f@.subrange(start + 1, f@.len() as int));
        start += 1;
    }
    string_from_chars(f.as_slice(), start, f.len())
}

} // verus!
