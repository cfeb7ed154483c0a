//! Resource names.
//!
//! Every resource is named `scheme:/path`, the path a sequence of segments
//! parted by slashes. The functions here are lexical: they look at the
//! characters of a name and never at the resource it names.

use vstd::prelude::*;
use vstd::slice::slice_to_vec;
use vstd::string::*;

verus! {

/// `p` without the slashes it begins with.
pub open spec fn strip_leading_slashes(p: Seq<char>) -> Seq<char>
    decreases p.len(),
{
    if p.len() > 0 && p[0] == '/' {
        strip_leading_slashes(p.drop_first())
    } else {
        p
    }
}

/// The name of `path` in `scheme`: the scheme, `:/`, and the path without
/// its leading slashes.
pub open spec fn natural_uri(scheme: Seq<char>, path: Seq<char>) -> Seq<char> {
    scheme + seq![':', '/'] + strip_leading_slashes(path)
}

/// The name of `path` below the directory `root`.
pub open spec fn rooted_uri(root: Seq<char>, path: Seq<char>) -> Seq<char> {
    root + seq!['/'] + strip_leading_slashes(path)
}

/// A segment `..` starts at `i`: two dots that stand between slashes, or
/// between a slash and an end of the path, or between the two ends.
pub open spec fn parent_segment_at(p: Seq<char>, i: int) -> bool {
    &&& 0 <= i
    &&& i + 2 <= p.len()
    &&& (i == 0 || p[i - 1] == '/')
    &&& p[i] == '.'
    &&& p[i + 1] == '.'
    &&& (i + 2 == p.len() || p[i + 2] == '/')
}

/// One of the segments of `p` is `..`.
pub open spec fn has_parent_segment(p: Seq<char>) -> bool {
    exists|i: int| parent_segment_at(p, i)
}

/// `p` ends with two dots.
pub open spec fn ends_with_dots(p: Seq<char>) -> bool {
    p.len() >= 2 && p[p.len() - 2] == '.' && p[p.len() - 1] == '.'
}

/// The path tries to climb: one of its segments is `..`, or it ends with
/// `..`.
pub open spec fn is_traversal(p: Seq<char>) -> bool {
    has_parent_segment(p) || ends_with_dots(p)
}

/// Where `c` first occurs in `s`; the length of `s` if it does not occur.
pub open spec fn first_index(s: Seq<char>, c: char) -> int
    decreases s.len(),
{
    if s.len() == 0 || s[0] == c {
        0
    } else {
        1 + first_index(s.drop_first(), c)
    }
}

/// The name with exactly one slash after its scheme. A name without a colon,
/// or with a slash before its first colon, has no scheme and stays as it is.
pub open spec fn normalized(uri: Seq<char>) -> Seq<char> {
    let k = first_index(uri, ':');
    if k < uri.len() && !uri.take(k).contains('/') {
        natural_uri(uri.take(k), uri.skip(k + 1))
    } else {
        uri
    }
}

/// Where the last segment of `u` starts: after its last slash, or at 0.
pub open spec fn last_segment_start(u: Seq<char>) -> int
    decreases u.len(),
{
    if u.len() == 0 {
        0
    } else if u.last() == '/' {
        u.len() as int
    } else {
        last_segment_start(u.drop_last())
    }
}

/// `u` without the slash that ends at `start`, and all after it.
pub open spec fn before_segment(u: Seq<char>, start: int) -> Seq<char> {
    if start > 0 {
        u.take(start - 1)
    } else {
        u.take(0)
    }
}

/// A segment that names nothing: the empty segment and `.`.
pub open spec fn is_blank_segment(segment: Seq<char>) -> bool {
    segment.len() == 0 || segment == seq!['.']
}

/// `u` without the slashes and `.` segments at its end.
pub open spec fn trim_trailing(u: Seq<char>) -> Seq<char>
    decreases u.len(),
{
    let start = last_segment_start(u);
    if u.len() > 0 && is_blank_segment(u.skip(start)) {
        proof {
            lemma_last_segment_start(u);
        }
        trim_trailing(before_segment(u, start))
    } else {
        u
    }
}

/// A name parted into the directory and the final component: the final
/// component is the last segment that is neither empty nor `.`, the
/// directory what stands before it, without the slashes and `.` segments at
/// its end. There is no final component if the name holds none, or if its
/// last one is `..`.
pub open spec fn split_last(u: Seq<char>) -> Option<(Seq<char>, Seq<char>)> {
    let t = trim_trailing(u);
    let start = last_segment_start(t);
    let name = t.skip(start);
    if t.len() == 0 || name == seq!['.', '.'] {
        None
    } else {
        Some((trim_trailing(before_segment(t, start)), name))
    }
}

/// The name of `name` in the directory `dir`: the two joined by a slash,
/// unless the directory is empty or ends with one.
pub open spec fn joined(dir: Seq<char>, name: Seq<char>) -> Seq<char> {
    if dir.len() == 0 || dir.last() == '/' {
        dir + name
    } else {
        dir + seq!['/'] + name
    }
}

/// The start of the last segment lies within `u`, follows a slash unless it
/// is 0, and no slash follows it.
pub proof fn lemma_last_segment_start(u: Seq<char>)
    ensures
        0 <= last_segment_start(u) <= u.len(),
        last_segment_start(u) > 0 ==> u[last_segment_start(u) - 1] == '/',
        forall|i: int| last_segment_start(u) <= i < u.len() ==> u[i] != '/',
    decreases u.len(),
{
    if u.len() > 0 && u.last() != '/' {
        let v = u.drop_last();
        lemma_last_segment_start(v);
        assert forall|i: int| last_segment_start(u) <= i < u.len() implies u[i] != '/' by {
            if i < v.len() {
                assert(v[i] == u[i]);
            }
        }
    }
}

/// The start of the last segment is the only position that follows a slash
/// (or is 0) and that no slash follows.
pub proof fn lemma_last_segment_start_is(u: Seq<char>, start: int)
    requires
        0 <= start <= u.len(),
        start > 0 ==> u[start - 1] == '/',
        forall|i: int| start <= i < u.len() ==> u[i] != '/',
    ensures
        last_segment_start(u) == start,
    decreases u.len(),
{
    if u.len() > 0 && u.last() != '/' {
        lemma_last_segment_start_is(u.drop_last(), start);
    }
}

/// Stripping the leading slashes of `p` drops exactly the slashes before its
/// first character that is none.
pub proof fn lemma_strip_leading_slashes(p: Seq<char>, k: int)
    requires
        0 <= k <= p.len(),
        forall|i: int| 0 <= i < k ==> p[i] == '/',
        k == p.len() || p[k] != '/',
    ensures
        strip_leading_slashes(p) == p.skip(k),
    decreases k,
{
    if k > 0 {
        lemma_strip_leading_slashes(p.drop_first(), k - 1);
    }
}

/// `c` first occurs in `s` at `k` if it stands there and nowhere before, and
/// "at the length" if it stands nowhere.
pub proof fn lemma_first_index(s: Seq<char>, c: char, k: int)
    requires
        0 <= k <= s.len(),
        forall|i: int| 0 <= i < k ==> s[i] != c,
        k == s.len() || s[k] == c,
    ensures
        first_index(s, c) == k,
    decreases k,
{
    if k > 0 {
        lemma_first_index(s.drop_first(), c, k - 1);
    }
}

/// What is left of a name without the slashes and `.` segments at its end
/// is a prefix of the name, and is empty or ends with a segment that names
/// something.
pub proof fn lemma_trim_trailing(u: Seq<char>)
    ensures
        trim_trailing(u).is_prefix_of(u),
        trim_trailing(u).len() > 0 ==> !is_blank_segment(
            trim_trailing(u).skip(last_segment_start(trim_trailing(u))),
        ),
    decreases u.len(),
{
    let start = last_segment_start(u);
    lemma_last_segment_start(u);
    if u.len() > 0 && is_blank_segment(u.skip(start)) {
        let shorter = before_segment(u, start);
        lemma_trim_trailing(shorter);
        let t = trim_trailing(shorter);
        assert(t =~= u.subrange(0, t.len() as int));
    }
}

/// The parts of a name: the final component is a segment that names
/// something (it is not empty, holds no slash, and is neither `.` nor
/// `..`), and the directory is a prefix of the name that ends before the
/// final component.
pub proof fn lemma_split_last_parts(u: Seq<char>)
    ensures
        split_last(u) matches Some((dir, name)) ==> {
            &&& name.len() > 0
            &&& !name.contains('/')
            &&& name != seq!['.']
            &&& name != seq!['.', '.']
            &&& dir.is_prefix_of(u)
            &&& dir.len() + name.len() <= u.len()
        },
{
    if let Some((dir, name)) = split_last(u) {
        let t = trim_trailing(u);
        let start = last_segment_start(t);
        lemma_trim_trailing(u);
        lemma_last_segment_start(t);
        assert(!name.contains('/'));
        lemma_trim_trailing(before_segment(t, start));
        assert(dir =~= u.subrange(0, dir.len() as int));
    }
}

/// What is left of a path without its leading slashes begins with none.
pub proof fn lemma_stripped_begins_with_no_slash(p: Seq<char>)
    ensures
        strip_leading_slashes(p).len() == 0 || strip_leading_slashes(p)[0] != '/',
        strip_leading_slashes(strip_leading_slashes(p)) == strip_leading_slashes(p),
    decreases p.len(),
{
    if p.len() > 0 && p[0] == '/' {
        lemma_stripped_begins_with_no_slash(p.drop_first());
    }
}

/// A name with exactly one slash after its scheme stays as it is when it is
/// brought to that form again.
pub proof fn lemma_normalized_is_stable(uri: Seq<char>)
    ensures
        normalized(normalized(uri)) == normalized(uri),
{
    let k = first_index(uri, ':');
    lemma_first_index_found(uri, ':');
    if k < uri.len() && !uri.take(k).contains('/') {
        let rest = strip_leading_slashes(uri.skip(k + 1));
        let name = normalized(uri);
        lemma_first_index(name, ':', k);
        lemma_stripped_begins_with_no_slash(uri.skip(k + 1));
        assert(name.skip(k + 1).drop_first() =~= rest);
    }
}

/// The number of slashes that `p` begins with.
pub fn leading_slashes(p: &[char]) -> (k: usize)
    ensures
        k <= p@.len(),
        p@.skip(k as int) == strip_leading_slashes(p@),
{
    let mut k: usize = 0;
    while k < p.len() && p[k] == '/'
        invariant
            k <= p.len(),
            forall|i: int| 0 <= i < k ==> p@[i] == '/',
        decreases p.len() - k,
    {
        k += 1;
    }
    proof {
        lemma_strip_leading_slashes(p@, k as int);
    }
    k
}

/// Whether the path tries to climb out of its directory.
pub fn has_traversal(p: &[char]) -> (r: bool)
    ensures
        r == is_traversal(p@),
{
    let n = p.len();
    if n < 2 {
        return false;
    }
    if p[n - 2] == '.' && p[n - 1] == '.' {
        return true;
    }
    let mut i: usize = 0;
    while i < n - 2
        invariant
            n == p.len(),
            n >= 2,
            forall|j: int| 0 <= j < i ==> !parent_segment_at(p@, j),
        decreases n - i,
    {
        if (i == 0 || p[i - 1] == '/') && p[i] == '.' && p[i + 1] == '.' && p[i + 2] == '/' {
            assert(parent_segment_at(p@, i as int));
            return true;
        }
        i += 1;
    }
    false
}

/// The three texts in a row.
pub fn concat3(a: &str, b: &str, c: &str) -> (r: String)
    ensures
        r@ == a@ + b@ + c@,
{
    let mut r = String::from_str(a);
    r.append(b);
    r.append(c);
    r
}

/// The characters of the name with exactly one slash after its scheme.
pub fn normalize(uri: &[char]) -> (r: Vec<char>)
    ensures
        r@ == normalized(uri@),
{
    let n = uri.len();
    let mut k: usize = 0;
    while k < n && uri[k] != ':' && uri[k] != '/'
        invariant
            k <= n,
            n == uri.len(),
            forall|i: int| 0 <= i < k ==> uri@[i] != ':' && uri@[i] != '/',
        decreases n - k,
    {
        k += 1;
    }
    if k == n || uri[k] == '/' {
        proof {
            if k < n {
                // a slash stands before any colon
                lemma_first_index_found(uri@, ':');
                let first = first_index(uri@, ':');
                if first < n {
                    assert(uri@.take(first)[k as int] == '/');
                }
            } else {
                lemma_first_index(uri@, ':', n as int);
            }
        }
        return slice_to_vec(uri);
    }
    proof {
        lemma_first_index(uri@, ':', k as int);
        assert(!uri@.take(k as int).contains('/'));
    }
    let ghost rest = uri@.skip(k as int + 1);
    let mut j: usize = k + 1;
    while j < n && uri[j] == '/'
        invariant
            k < j <= n,
            n == uri.len(),
            forall|i: int| k < i < j ==> uri@[i] == '/',
        decreases n - j,
    {
        j += 1;
    }
    proof {
        lemma_strip_leading_slashes(rest, j - k - 1);
    }
    let mut r: Vec<char> = Vec::new();
    let mut i: usize = 0;
    while i < k
        invariant
            i <= k <= n,
            n == uri.len(),
            r@ == uri@.take(i as int),
        decreases k - i,
    {
        r.push(uri[i]);
        i += 1;
    }
    r.push(':');
    r.push('/');
    let mut m: usize = j;
    while m < n
        invariant
            j <= m <= n,
            n == uri.len(),
            r@ == uri@.take(k as int) + seq![':', '/'] + uri@.subrange(j as int, m as int),
        decreases n - m,
    {
        r.push(uri[m]);
        m += 1;
    }
    r
}

/// Where the last segment of the first `end` characters of `u` starts.
fn segment_start(u: &[char], end: usize) -> (start: usize)
    requires
        end <= u@.len(),
    ensures
        start <= end,
        start == last_segment_start(u@.take(end as int)),
{
    let mut start: usize = end;
    while start > 0 && u[start - 1] != '/'
        invariant
            start <= end <= u@.len(),
            forall|i: int| start <= i < end ==> u@[i] != '/',
        decreases start,
    {
        start -= 1;
    }
    proof {
        lemma_last_segment_start_is(u@.take(end as int), start as int);
    }
    start
}

/// How many of the first `len` characters of `u` are left when the slashes
/// and `.` segments at their end are taken away.
fn trimmed_len(u: &[char], len: usize) -> (end: usize)
    requires
        len <= u@.len(),
    ensures
        end <= len,
        u@.take(end as int) == trim_trailing(u@.take(len as int)),
{
    let mut end: usize = len;
    loop
        invariant
            end <= len <= u@.len(),
            trim_trailing(u@.take(end as int)) == trim_trailing(u@.take(len as int)),
        ensures
            end <= len,
            u@.take(end as int) == trim_trailing(u@.take(len as int)),
        decreases end,
    {
        if end == 0 {
            break ;
        }
        let start = segment_start(u, end);
        let ghost t = u@.take(end as int);
        let blank = start == end || (end - start == 1 && u[start] == '.');
        proof {
            let segment = t.skip(start as int);
            if blank && start < end {
                assert(segment =~= seq!['.']);
            }
            if !blank && segment.len() == 1 {
                assert(segment[0] == u@[start as int]);
            }
        }
        if !blank {
            break ;
        }
        let shorter: usize = if start > 0 {
            start - 1
        } else {
            0
        };
        assert(before_segment(t, start as int) =~= u@.take(shorter as int));
        end = shorter;
    }
    end
}

/// Where a name parts into directory and final component: the length of the
/// directory, and where the final component starts and ends.
pub fn split(u: &[char]) -> (r: Option<(usize, usize, usize)>)
    ensures
        match r {
            Some((dir_end, start, end)) => {
                &&& dir_end <= start <= end <= u@.len()
                &&& u@.take(end as int) == trim_trailing(u@)
                &&& start == last_segment_start(trim_trailing(u@))
                &&& split_last(u@) == Some(
                    (u@.take(dir_end as int), u@.subrange(start as int, end as int)),
                )
            },
            None => split_last(u@) is None,
        },
{
    assert(u@.take(u@.len() as int) =~= u@);
    let end = trimmed_len(u, u.len());
    if end == 0 {
        return None;
    }
    let start = segment_start(u, end);
    let ghost t = u@.take(end as int);
    let climbs = end - start == 2 && u[start] == '.' && u[start + 1] == '.';
    proof {
        let name = t.skip(start as int);
        if climbs {
            assert(name =~= seq!['.', '.']);
        }
        if name == seq!['.', '.'] {
            assert(name.len() == 2);
        }
    }
    if climbs {
        return None;
    }
    let before: usize = if start > 0 {
        start - 1
    } else {
        0
    };
    assert(before_segment(t, start as int) =~= u@.take(before as int));
    let dir_end = trimmed_len(u, before);
    Some((dir_end, start, end))
}

/// `c` stands at its first index, if that lies within `s`, and nowhere
/// before.
pub proof fn lemma_first_index_found(s: Seq<char>, c: char)
    ensures
        0 <= first_index(s, c) <= s.len(),
        first_index(s, c) < s.len() ==> s[first_index(s, c)] == c,
        forall|i: int| 0 <= i < first_index(s, c) ==> s[i] != c,
    decreases s.len(),
{
    if s.len() > 0 && s[0] != c {
        lemma_first_index_found(s.drop_first(), c);
        assert forall|i: int| 0 <= i < first_index(s, c) implies s[i] != c by {
            if i > 0 {
                assert(s.drop_first()[i - 1] == s[i]);
            }
        }
    }
}

} // verus!
