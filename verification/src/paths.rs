//! Paths of files, as the platform writes them.

use vstd::prelude::*;

use crate::text;

verus! {

/// A name that is one plain component of a path: not empty, without
/// separators and without a drive.
pub open spec fn is_component(name: Seq<char>) -> bool {
    name.len() > 0 && !name.contains('/') && !name.contains('\\') && !name.contains(':')
}

/// `path` is `name` inside `dir`, with the platform's separator between them
/// where `dir` does not end with one. Whether a backslash is one, and whether a
/// colon ends a drive, depends on the platform.
pub open spec fn is_inside(path: Seq<char>, dir: Seq<char>, name: Seq<char>) -> bool {
    let behind = path == dir + name;
    let apart = path == dir + "/"@ + name || path == dir + "\\"@ + name;
    if dir.len() == 0 || dir.last() == '/' {
        behind
    } else if dir.last() == '\\' || dir.last() == ':' {
        behind || apart
    } else {
        apart
    }
}

/// A slash of either kind.
pub open spec fn is_slash(c: char) -> bool {
    c == '/' || c == '\\'
}

/// A path that begins neither with a slash nor with a drive.
pub open spec fn is_relative(path: Seq<char>) -> bool {
    !(path.len() > 0 && is_slash(path[0])) && !path.contains(':')
}

/// A path that one platform does not take apart.
pub open spec fn is_verbatim(path: Seq<char>) -> bool {
    text::starts(path, "\\\\?\\"@)
}

/// Where `name` is relative, `path` is that name inside `dir`.
pub open spec fn is_joined(path: Seq<char>, dir: Seq<char>, name: Seq<char>) -> bool {
    is_relative(name) && !is_verbatim(dir) ==> is_inside(path, dir, name)
}

/// `path` is `b` inside `a` inside `dir`.
pub open spec fn is_below(path: Seq<char>, dir: Seq<char>, a: Seq<char>, b: Seq<char>) -> bool {
    exists|mid: Seq<char>| #[trigger] is_joined(mid, dir, a) && is_joined(path, mid, b)
}

/// `path` is `c` inside `b` inside `a` inside `dir`.
pub open spec fn is_far_below(
    path: Seq<char>,
    dir: Seq<char>,
    a: Seq<char>,
    b: Seq<char>,
    c: Seq<char>,
) -> bool {
    exists|mid: Seq<char>| #[trigger] is_joined(mid, dir, a) && is_below(path, mid, b, c)
}

/// `std::path::Path::join`: a relative name is put behind the directory, after
/// a separator where one is needed. Which separator that is depends on the
/// platform. Of other names nothing is said: an absolute one takes the
/// directory's place. Nor is anything of a verbatim directory, in which one
/// platform puts parents and the like away.
#[verifier::external_body]
pub(crate) fn join(dir: &str, name: &str) -> (r: String)
    ensures
        is_joined(r@, dir@, name@),
{
    std::path::Path::new(dir).join(name).to_string_lossy().to_string()
}

/// A plain component that does not stand for a directory itself or its parent.
pub open spec fn is_name(name: Seq<char>) -> bool {
    is_component(name) && name != "."@ && name != ".."@
}

/// The path begins with two slashes.
pub open spec fn is_share(path: Seq<char>) -> bool {
    path.len() >= 2 && is_slash(path[0]) && is_slash(path[1])
}

/// `name` is a plain name at the end of `path`, behind a slash where anything
/// stands before it; slashes may follow. A path that begins with two slashes
/// names a share on one platform and is left out.
pub open spec fn is_last(path: Seq<char>, name: Seq<char>) -> bool {
    let bare = text::trim_end_of(path, "/"@);
    &&& is_name(name)
    &&& bare == name || text::ends(bare, "/"@ + name)
    &&& !is_share(path)
}

/// `path` is a plain name directly behind `dir` and the separator `sep`. A
/// directory that ends with a separator, a dot or a drive is left out, and so is
/// a path that begins with two slashes: platforms read these differently.
pub open spec fn is_split(path: Seq<char>, dir: Seq<char>, sep: char, name: Seq<char>) -> bool {
    &&& path == dir.push(sep) + name
    &&& is_name(name)
    &&& dir.len() > 0 && !is_slash(dir.last()) && dir.last() != '.' && dir.last() != ':'
    &&& !is_share(path)
}

/// `dir` is the directory that `path` stands in. An empty path and one of
/// slashes stand in none, a plain name in the empty one. Where a backslash
/// stands before the name, one platform takes the whole path for a name.
pub open spec fn is_parent(path: Seq<char>, dir: Option<Seq<char>>) -> bool {
    &&& (forall|i: int| 0 <= i < path.len() ==> path[i] == '/') ==> dir is None
    &&& is_name(path) ==> dir == Some(Seq::<char>::empty())
    &&& forall|d: Seq<char>, n: Seq<char>| #[trigger]
        is_split(path, d, '/', n) ==> dir == Some(d)
    &&& forall|d: Seq<char>, n: Seq<char>|
        #[trigger] is_split(path, d, '\\', n) && !path.contains('/') ==> dir == Some(d) || dir
            == Some(Seq::<char>::empty())
}

/// `std::path::Path::parent`: a path without its last component. There is none
/// where the path is empty or ends with a root; a relative path of one component
/// has an empty one. Whether a backslash separates components depends on the
/// platform. Of paths with drives or shares at their end nothing is said.
#[verifier::external_body]
pub(crate) fn parent(path: &str) -> (r: Option<String>)
    ensures
        is_parent(path@, text::opt_view(r)),
{
    std::path::Path::new(path).parent().map(|p| p.to_string_lossy().to_string())
}

/// A character that separates the components of a path. Whether a backslash is
/// one depends on the platform.
pub open spec fn is_separator(c: char, back: bool) -> bool {
    c == '/' || (back && c == '\\')
}

/// A path without the separators at its end, and without the components there
/// that stand for a directory itself.
pub open spec fn bare_path(path: Seq<char>, back: bool) -> Seq<char>
    decreases path.len(),
{
    if path.len() > 0 && is_separator(path.last(), back) {
        bare_path(path.drop_last(), back)
    } else if path.len() > 1 && path.last() == '.' && is_separator(path[path.len() - 2], back) {
        bare_path(path.drop_last(), back)
    } else {
        path
    }
}

/// What stands behind the last separator of a path.
pub open spec fn last_part(path: Seq<char>, back: bool) -> Seq<char>
    decreases path.len(),
{
    if path.len() == 0 || is_separator(path.last(), back) {
        Seq::empty()
    } else {
        last_part(path.drop_last(), back).push(path.last())
    }
}

/// The last component of a path.
pub open spec fn last_component(path: Seq<char>, back: bool) -> Seq<char> {
    last_part(bare_path(path, back), back)
}

/// `name` is the last component of a path, where it has one and that is not the
/// parent of a directory. Of the path `.` nothing is said.
pub open spec fn is_read_name(path: Seq<char>, back: bool, name: Option<Seq<char>>) -> bool {
    let last = last_component(path, back);
    if last == "."@ {
        true
    } else if last.len() == 0 || last == ".."@ {
        name is None
    } else {
        name == Some(last)
    }
}

/// The path holds slashes only.
pub open spec fn is_slashes(path: Seq<char>) -> bool {
    forall|i: int| 0 <= i < path.len() ==> is_slash(#[trigger] path[i])
}

/// A path whose end neither a share nor a drive can be part of.
pub open spec fn is_plain_end(path: Seq<char>) -> bool {
    (!is_share(path) || is_slashes(path)) && !last_component(path, true).contains(':')
}

/// `name` is the last component of `path` as one platform or another reads it.
/// Of paths whose end is a share or a drive nothing is said.
pub open spec fn is_file_name(path: Seq<char>, name: Option<Seq<char>>) -> bool {
    is_plain_end(path) ==> is_read_name(path, false, name) || is_read_name(path, true, name)
}

/// `std::path::Path::file_name`: the last component of a path, where it has
/// one and that is not the parent of a directory. Separators at the end do not
/// count, nor do single dots behind one. Whether a backslash separates
/// components depends on the platform. Of a path that begins with two slashes
/// or whose last component holds a colon nothing is said: one platform reads a
/// share or a drive there.
#[verifier::external_body]
pub(crate) fn file_name(path: &str) -> (r: Option<String>)
    ensures
        is_file_name(path@, text::opt_view(r)),
{
    std::path::Path::new(path).file_name().map(|s| s.to_string_lossy().to_string())
}

proof fn lemma_last_part(head: Seq<char>, name: Seq<char>, back: bool)
    requires
        is_component(name),
        head.len() > 0 ==> head.last() == '/',
    ensures
        last_part(head + name, back) == name,
    decreases name.len(),
{
    let path = head + name;
    let short = name.drop_last();
    assert(path.last() == name.last());
    assert(name.contains(name.last()));
    assert(path.drop_last() =~= head + short);
    if short.len() > 0 {
        assert forall|c: char| short.contains(c) implies name.contains(c) by {
            let i = short.index_of(c);
            assert(name[i] == c);
        }
        lemma_last_part(head, short, back);
    } else {
        assert(path.drop_last() =~= head);
        assert(last_part(head, back) =~= Seq::empty());
    }
    assert(last_part(path, back) =~= name);
}

/// A plain name at the end of a path is its last component, however a backslash
/// is read.
pub proof fn lemma_last_component(path: Seq<char>, name: Seq<char>, back: bool)
    requires
        is_name(name),
        text::trim_end_of(path, "/"@) == name || text::ends(
            text::trim_end_of(path, "/"@),
            "/"@ + name,
        ),
    ensures
        last_component(path, back) == name,
    decreases path.len(),
{
    reveal_strlit("/");
    reveal_strlit(".");
    let bare = text::trim_end_of(path, "/"@);
    assert("/"@[0] == '/');
    if path.len() > 0 && path.last() == '/' {
        assert("/"@.contains('/'));
        lemma_last_component(path.drop_last(), name, back);
    } else {
        if path.len() > 0 {
            assert(!"/"@.contains(path.last()));
        }
        assert(bare == path);
        let n = path.len() - name.len();
        let head = path.take(n);
        assert(path =~= head + name) by {
            if path != name {
                let end = path.skip(path.len() - ("/"@ + name).len());
                assert forall|i: int| 0 <= i < name.len() implies path[n + i] == name[i] by {
                    assert(end[i + 1] == path[n + i]);
                    assert(("/"@ + name)[i + 1] == name[i]);
                }
            }
        }
        assert(head.len() > 0 ==> head.last() == '/') by {
            if path != name {
                let end = path.skip(path.len() - ("/"@ + name).len());
                assert(end[0] == path[n - 1]);
                assert(("/"@ + name)[0] == '/');
            }
        }
        assert(path.last() == name.last());
        assert(name.contains(name.last()));
        if name.len() == 1 {
            assert(name.last() == '.' ==> name =~= "."@);
        } else {
            assert(path[path.len() - 2] == name[name.len() - 2]);
            assert(name.contains(name[name.len() - 2]));
        }
        assert(bare_path(path, back) == path);
        lemma_last_part(head, name, back);
    }
}

/// A path of slashes has no component.
pub proof fn lemma_no_component(path: Seq<char>, back: bool)
    requires
        forall|i: int| 0 <= i < path.len() ==> path[i] == '/',
    ensures
        last_component(path, back).len() == 0,
    decreases path.len(),
{
    if path.len() > 0 {
        lemma_no_component(path.drop_last(), back);
    }
}

/// A path that ends with the parent of a directory has that as its last
/// component.
pub proof fn lemma_parent_component(path: Seq<char>, back: bool)
    requires
        path == ".."@ || text::ends(path, "/.."@),
    ensures
        last_component(path, back) == ".."@,
{
    reveal_strlit("..");
    reveal_strlit("/..");
    let n = path.len() as int;
    if path != ".."@ {
        let end = path.skip(n - 3);
        assert(end[0] == path[n - 3] && end[1] == path[n - 2] && end[2] == path[n - 1]);
        assert("/.."@[0] == '/' && "/.."@[1] == '.' && "/.."@[2] == '.');
    }
    assert(path[n - 1] == '.' && path[n - 2] == '.');
    assert(bare_path(path, back) == path);
    let one = path.drop_last();
    let two = one.drop_last();
    assert(one.last() == '.');
    assert(last_part(two, back) =~= Seq::empty()) by {
        if two.len() > 0 {
            assert(two.last() == '/');
        }
    }
    assert(last_part(one, back) =~= seq!['.']);
    assert(last_part(path, back) =~= ".."@);
}

} // verus!
