//! Where scanned frames are written.
//!
//! A path is a text with `/` between its components. Empty components, and `.` after the first,
//! stand for nothing; the last component that stands for something is the file's name, unless
//! it is `..`.

use crate::text;
use vstd::prelude::*;

verus! {

/// How many characters stand before the components: a root, or a leading `.`.
pub open spec fn body_start(path: Seq<char>) -> int {
    if path.len() > 0 && path[0] == '/' {
        1
    } else if path.len() > 0 && path[0] == '.' && (path.len() == 1 || path[1] == '/') {
        1
    } else {
        0
    }
}

/// Where the last of the components from `start` on begins.
pub open spec fn last_start(path: Seq<char>, start: int) -> int
    decreases path.len(),
{
    if path.len() <= start || path.len() == 0 {
        start
    } else if path.last() == '/' {
        path.len() as int
    } else {
        last_start(path.drop_last(), start)
    }
}

/// What is left of a path without its last component and the separator before it.
pub open spec fn without_last(path: Seq<char>, start: int) -> Seq<char> {
    let at = last_start(path, start);
    path.take(
        if at > start {
            at - 1
        } else {
            start
        },
    )
}

/// Whether a component stands for nothing.
pub open spec fn is_idle(component: Seq<char>) -> bool {
    component.len() == 0 || component == seq!['.']
}

/// A path without the components at its end that stand for nothing.
pub open spec fn trimmed(path: Seq<char>, start: int) -> Seq<char>
    decreases path.len(),
{
    if path.len() <= start || start < 0 || without_last(path, start).len() >= path.len() {
        path
    } else if is_idle(path.skip(last_start(path, start))) {
        trimmed(without_last(path, start), start)
    } else {
        path
    }
}

/// The name of the file at `path`.
pub open spec fn file_name(path: Seq<char>) -> Option<Seq<char>> {
    let start = body_start(path);
    let kept = trimmed(path, start);
    let name = kept.skip(last_start(kept, start));
    if kept.len() <= start || name == seq!['.', '.'] {
        None
    } else {
        Some(name)
    }
}

/// The directory of the file at `path`.
pub open spec fn directory(path: Seq<char>) -> Seq<char> {
    let start = body_start(path);
    trimmed(without_last(trimmed(path, start), start), start)
}

/// Where the last dot of a name is, if there is one behind the first character: there the
/// extension begins.
pub open spec fn extension_dot(name: Seq<char>) -> Option<int>
    decreases name.len(),
{
    if name.len() <= 1 {
        None
    } else if name.last() == '.' {
        Some(name.len() - 1)
    } else {
        extension_dot(name.drop_last())
    }
}

/// The file `name` in the directory `dir`.
pub open spec fn joined(dir: Seq<char>, name: Seq<char>) -> Seq<char> {
    if dir.len() == 0 || dir.last() == '/' {
        dir + name
    } else {
        dir + seq!['/'] + name
    }
}

/// A name with `s` before its extension, which begins at `dot`.
pub open spec fn inserted(name: Seq<char>, dot: int, s: Seq<char>) -> Seq<char> {
    name.take(dot) + s + name.skip(dot)
}

/// A path with `s` before the extension of its file, or at its end if there is none.
pub open spec fn suffixed(path: Seq<char>, s: Seq<char>) -> Seq<char> {
    match file_name(path) {
        Some(name) => match extension_dot(name) {
            Some(dot) => joined(directory(path), inserted(name, dot, s)),
            None => path + s,
        },
        None => path + s,
    }
}

/// Find where the last component of the first `len` characters begins.
fn find_last_start(path: &Vec<char>, len: usize, start: usize) -> (r: usize)
    requires
        len <= path@.len(),
    ensures
        r == last_start(path@.take(len as int), start as int),
        start <= len ==> start <= r <= len,
        start < len && r > start ==> path@[r - 1] == '/',
{
    let mut i: usize = len;
    while i > start && path[i - 1] != '/'
        invariant
            i <= len <= path@.len(),
            start <= len ==> start <= i,
            last_start(path@.take(len as int), start as int) == last_start(
                path@.take(i as int),
                start as int,
            ),
        decreases i,
    {
        assert(path@.take(i as int).drop_last() =~= path@.take(i - 1));
        i = i - 1;
    }
    if i > start {
        i
    } else {
        start
    }
}

/// Find how much of the first `len` characters is left without the last component.
fn find_without_last(path: &Vec<char>, len: usize, start: usize) -> (r: usize)
    requires
        start < len <= path@.len(),
    ensures
        start <= r < len,
        path@.take(r as int) == without_last(path@.take(len as int), start as int),
{
    let at: usize = find_last_start(path, len, start);
    let r: usize = if at > start {
        at - 1
    } else {
        start
    };
    assert(path@.take(r as int) =~= path@.take(len as int).take(r as int));
    r
}

/// Find how much of the first `len` characters is left without the idle components at its end.
fn find_trimmed(path: &Vec<char>, len: usize, start: usize) -> (r: usize)
    requires
        start <= len <= path@.len(),
    ensures
        start <= r <= len,
        path@.take(r as int) == trimmed(path@.take(len as int), start as int),
{
    let mut end: usize = len;
    while end > start
        invariant
            start <= end <= len <= path@.len(),
            trimmed(path@.take(len as int), start as int) == trimmed(
                path@.take(end as int),
                start as int,
            ),
        decreases end,
    {
        let at: usize = find_last_start(path, end, start);
        let ghost component = path@.take(end as int).skip(at as int);
        let idle = at == end || (end - at == 1 && path[at] == '.');
        proof {
            if end - at == 1 {
                assert(component[0] == path@[at as int]);
                if path@[at as int] == '.' {
                    assert(component =~= seq!['.']);
                }
            }
            assert(idle == is_idle(component));
        }
        let next: usize = find_without_last(path, end, start);
        if !idle {
            return end;
        }
        end = next;
    }
    end
}

/// Find the last dot of the characters from `from` up to `to`, but not at `from`.
fn find_dot(path: &Vec<char>, from: usize, to: usize) -> (r: Option<usize>)
    requires
        from <= to <= path@.len(),
    ensures
        match r {
            Some(dot) => from < dot < to && extension_dot(
                path@.subrange(from as int, to as int),
            ) == Some(dot - from),
            None => extension_dot(path@.subrange(from as int, to as int)) is None,
        },
{
    let mut i: usize = to;
    while i > from && i - from > 1
        invariant
            from <= i <= to <= path@.len(),
            extension_dot(path@.subrange(from as int, to as int)) == extension_dot(
                path@.subrange(from as int, i as int),
            ),
        decreases i,
    {
        let ghost name = path@.subrange(from as int, i as int);
        assert(name.last() == path@[i - 1]);
        if path[i - 1] == '.' {
            return Some(i - 1);
        }
        assert(name.drop_last() =~= path@.subrange(from as int, i - 1));
        i = i - 1;
    }
    None
}

/// Put the file whose name stands from `at` up to `kept` into its directory again, with `s`
/// before the dot of its extension.
fn insert_suffix(
    chars: &Vec<char>,
    start: usize,
    at: usize,
    dot: usize,
    kept: usize,
    s: &str,
) -> (r: String)
    requires
        start <= at < dot < kept <= chars@.len(),
    ensures
        r@ == joined(
            trimmed(without_last(chars@.take(kept as int), start as int), start as int),
            inserted(chars@.subrange(at as int, kept as int), dot - at, s@),
        ),
{
    let cut: usize = find_without_last(chars, kept, start);
    let dir: usize = find_trimmed(chars, cut, start);
    let ghost directory = chars@.take(dir as int);
    let ghost name = chars@.subrange(at as int, kept as int);
    let mut out = String::new();
    text::push_chars(&mut out, chars, 0, dir);
    assert(out@ =~= directory);
    if dir > 0 && chars[dir - 1] != '/' {
        text::push_char(&mut out, '/');
    }
    assert(out@ =~= joined(directory, Seq::empty()));
    text::push_chars(&mut out, chars, at, dot);
    out.append(s);
    text::push_chars(&mut out, chars, dot, kept);
    proof {
        assert(name.take(dot - at) =~= chars@.subrange(at as int, dot as int));
        assert(name.skip(dot - at) =~= chars@.subrange(dot as int, kept as int));
        assert(out@ =~= joined(directory, inserted(name, dot - at, s@)));
    }
    out
}

/// Insert `s` before the file extension: `scan.tiff` + `_ir` -> `scan_ir.tiff`. No
/// extension appends: `scan` + `_ir` -> `scan_ir`. Directory components are preserved.
pub fn suffix(path: &str, s: &str) -> (r: String)
    ensures
        r@ == suffixed(path@, s@),
{
    let chars: Vec<char> = text::chars_of(path);
    let len: usize = chars.len();
    let start: usize = if len > 0 && chars[0] == '/' {
        1
    } else if len > 0 && chars[0] == '.' && (len == 1 || chars[1] == '/') {
        1
    } else {
        0
    };
    assert(chars@.take(len as int) =~= path@);
    let kept: usize = find_trimmed(&chars, len, start);
    if kept > start {
        let at: usize = find_last_start(&chars, kept, start);
        let ghost name = chars@.subrange(at as int, kept as int);
        assert(chars@.take(kept as int).skip(at as int) =~= name);
        let is_parent = kept - at == 2 && chars[at] == '.' && chars[at + 1] == '.';
        proof {
            if kept - at == 2 {
                assert(name[0] == chars@[at as int] && name[1] == chars@[at + 1]);
                if is_parent {
                    assert(name =~= seq!['.', '.']);
                }
            }
        }
        if !is_parent {
            assert(file_name(path@) == Some(name));
            if let Some(dot) = find_dot(&chars, at, kept) {
                return insert_suffix(&chars, start, at, dot, kept, s);
            }
        }
    }
    let mut out = String::new();
    out.append(path);
    out.append(s);
    assert(out@ =~= path@ + s@);
    out
}

/// Where frame number `k` goes: into numbered files, or all to `output`.
pub open spec fn numbered_path(output: Seq<char>, k: nat, numbered: bool) -> Seq<char> {
    if numbered {
        suffixed(output, seq!['_'] + text::two_digits(k))
    } else {
        output
    }
}

/// The path of frame number `k`. With `numbered`, one file per frame as `OUT_00.tiff`,
/// `OUT_01.tiff`, ...; otherwise all to `output` (single-frame use).
pub fn frame_path(output: &str, k: usize, numbered: bool) -> (r: String)
    ensures
        r@ == numbered_path(output@, k as nat, numbered),
{
    if numbered {
        let mut number = String::new();
        text::push_char(&mut number, '_');
        text::push_two_digits(&mut number, k as u64);
        assert(number@ =~= seq!['_'] + text::two_digits(k as nat));
        suffix(output, number.as_str())
    } else {
        output.to_owned()
    }
}

/// The path of the infrared plane that belongs to the image at `path`.
pub fn ir_path(path: &str) -> (r: String)
    ensures
        r@ == suffixed(path@, "_ir"@),
{
    suffix(path, "_ir")
}

/// Different texts inserted into one path give different paths.
pub proof fn lemma_suffixes_differ(path: Seq<char>, a: Seq<char>, b: Seq<char>)
    requires
        suffixed(path, a) == suffixed(path, b),
    ensures
        a == b,
{
    let (before, after): (Seq<char>, Seq<char>) = match file_name(path) {
        Some(name) => match extension_dot(name) {
            Some(dot) => (joined(directory(path), name.take(dot)), name.skip(dot)),
            None => (path, Seq::empty()),
        },
        None => (path, Seq::empty()),
    };
    assert(suffixed(path, a) =~= before + a + after);
    assert(suffixed(path, b) =~= before + b + after);
    assert(a.len() == b.len()) by {
        assert((before + a + after).len() == (before + b + after).len());
    }
    assert forall|i: int| 0 <= i < a.len() implies a[i] == b[i] by {
        assert((before + a + after)[before.len() + i] == a[i]);
        assert((before + b + after)[before.len() + i] == b[i]);
    }
    assert(a =~= b);
}

/// No two frames of a strip are written to one file.
pub proof fn lemma_numbered_paths_differ(output: Seq<char>, i: nat, j: nat)
    requires
        numbered_path(output, i, true) == numbered_path(output, j, true),
    ensures
        i == j,
{
    let (a, b) = (seq!['_'] + text::two_digits(i), seq!['_'] + text::two_digits(j));
    lemma_suffixes_differ(output, a, b);
    assert(a.skip(1) =~= text::two_digits(i));
    assert(b.skip(1) =~= text::two_digits(j));
    text::lemma_two_digits_round_trip(i);
    text::lemma_two_digits_round_trip(j);
}

/// Whether `name` can be the name of a file, with an extension that begins at `dot`.
pub open spec fn has_extension(name: Seq<char>, dot: int) -> bool {
    &&& forall|i: int| 0 <= i < name.len() ==> #[trigger] name[i] != '/'
    &&& name != seq!['.', '.']
    &&& extension_dot(name) == Some(dot)
}

/// Behind a separator, a name without one is the last component.
proof fn lemma_last_start(before: Seq<char>, name: Seq<char>, start: int)
    requires
        0 <= start <= before.len(),
        before.len() > start ==> before.last() == '/',
        forall|i: int| 0 <= i < name.len() ==> #[trigger] name[i] != '/',
    ensures
        last_start(before + name, start) == before.len(),
    decreases name.len(),
{
    if name.len() == 0 {
        assert(before + name =~= before);
    } else {
        assert((before + name).last() == name.last());
        assert((before + name).drop_last() =~= before + name.drop_last());
        lemma_last_start(before, name.drop_last(), start);
    }
}

/// A name with an extension is no idle component.
proof fn lemma_name_is_not_idle(name: Seq<char>, dot: int)
    requires
        has_extension(name, dot),
    ensures
        !is_idle(name),
        name.len() > 1,
{
}

/// Alone, a file name gets the suffix before its extension.
pub proof fn lemma_suffix_of_name(name: Seq<char>, dot: int, s: Seq<char>)
    requires
        has_extension(name, dot),
    ensures
        suffixed(name, s) == inserted(name, dot, s),
{
    lemma_name_is_not_idle(name, dot);
    let empty = Seq::<char>::empty();
    assert(empty + name =~= name);
    lemma_last_start(empty, name, 0);
    assert(body_start(name) == 0);
    assert(name.skip(0) =~= name);
    assert(without_last(name, 0) =~= empty);
    assert(trimmed(name, 0) == name);
    assert(directory(name) =~= empty);
    assert(empty + inserted(name, dot, s) =~= inserted(name, dot, s));
}

/// Whether `dir` is a directory whose spelling ends in a component that stands for something,
/// or is `.` alone.
pub open spec fn is_directory(dir: Seq<char>) -> bool {
    &&& dir.len() > 0
    &&& dir.last() != '/'
    &&& dir == seq!['.'] || !is_idle(dir.skip(last_start(dir, body_start(dir))))
}

/// The directory is preserved: a file in it gets the suffix before its extension and stays
/// where it is.
pub proof fn lemma_suffix_keeps_directory(
    dir: Seq<char>,
    name: Seq<char>,
    dot: int,
    s: Seq<char>,
)
    requires
        is_directory(dir),
        has_extension(name, dot),
    ensures
        suffixed(dir + seq!['/'] + name, s) == dir + seq!['/'] + inserted(name, dot, s),
{
    lemma_name_is_not_idle(name, dot);
    let before = dir + seq!['/'];
    let path = before + name;
    let start = body_start(path);
    assert(path[0] == dir[0]);
    assert(path[1] == if dir.len() > 1 {
        dir[1]
    } else {
        '/'
    });
    assert(start == body_start(dir));
    assert(start <= dir.len());
    lemma_last_start(before, name, start);
    assert(path.skip(before.len() as int) =~= name);
    assert(without_last(path, start) =~= dir);
    assert(trimmed(path, start) == path);
    assert(trimmed(dir, start) == dir);
    assert(directory(path) == dir);
    assert(file_name(path) == Some(name));
}

} // verus!
