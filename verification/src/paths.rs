//! File paths, compared as files are found: component by component.

use crate::text::texts;
use vstd::prelude::*;

verus! {

/// What a path is known by: its components.
pub type PathKey = Seq<Seq<char>>;

/// What stands between the slashes of a path, in order.
pub open spec fn parts(path: Seq<char>) -> Seq<Seq<char>>
    decreases path.len(),
{
    if path.len() == 0 {
        seq![Seq::empty()]
    } else {
        let before = parts(path.drop_last());
        if path.last() == '/' {
            before.push(Seq::empty())
        } else {
            before.drop_last().push(before.last().push(path.last()))
        }
    }
}

/// Whether a part means something: an empty one does not, and a dot does so only
/// where the path begins with it.
pub open spec fn counts(part: Seq<char>, first: bool) -> bool {
    part.len() > 0 && (first || part != seq!['.'])
}

/// The parts that mean something.
pub open spec fn meaningful(parts: Seq<Seq<char>>) -> Seq<Seq<char>>
    decreases parts.len(),
{
    if parts.len() == 0 {
        Seq::empty()
    } else {
        let before = meaningful(parts.drop_last());
        if counts(parts.last(), parts.len() == 1) {
            before.push(parts.last())
        } else {
            before
        }
    }
}

/// The root, where a path starts at it.
pub open spec fn root_of(path: Seq<char>) -> Seq<Seq<char>> {
    if path.len() > 0 && path[0] == '/' {
        seq![seq!['/']]
    } else {
        Seq::empty()
    }
}

/// The components of a path whose only separators are slashes. Repeated slashes,
/// a slash at the end and dots inside mean nothing.
pub open spec fn components(path: Seq<char>) -> PathKey {
    root_of(path) + meaningful(parts(path))
}

/// Whether every machine finds the same components in a path: on some of them
/// backslashes are separators too, a colon can end the name of a drive, and two
/// slashes in front can begin the name of a server.
pub open spec fn portable(path: Seq<char>) -> bool {
    &&& !path.contains('\\')
    &&& !path.contains(':')
    &&& !(path.len() >= 2 && path[0] == '/' && path[1] == '/')
}

/// The components of a path on this machine: two paths are the same path if they
/// have the same components.
///
/// Calls `std::path::Path::components`. The root is given as a slash, a prefix
/// such as a drive by what it was parsed to, and every other component by its
/// text. The contract claims the components of a portable path; which ones
/// another path has depends on the machine and is left open.
#[verifier::external_body]
pub(crate) fn path_components(path: &String) -> (found: Vec<String>)
    ensures
        portable(path@) ==> texts(found@) == components(path@),
{
    std::path::Path::new(path)
        .components()
        .map(|c| match c {
            std::path::Component::Prefix(p) => format!("{:?}/", p.kind()),
            std::path::Component::RootDir => String::from("/"),
            _ => c.as_os_str().to_string_lossy().into_owned(),
        })
        .collect()
}

/// The parts of a path are those on either side of a slash.
proof fn lemma_parts_joined(p: Seq<char>, q: Seq<char>)
    ensures
        parts(p + seq!['/'] + q) == parts(p) + parts(q),
        parts(q).len() >= 1,
    decreases q.len(),
{
    let all = p + seq!['/'] + q;
    if q.len() == 0 {
        assert(all.drop_last() =~= p);
        assert(parts(all) =~= parts(p) + parts(q));
    } else {
        lemma_parts_joined(p, q.drop_last());
        assert(all.drop_last() =~= p + seq!['/'] + q.drop_last());
        assert(all.last() == q.last());
        assert(parts(all) =~= parts(p) + parts(q));
    }
}

/// The parts that mean something where they do not begin a path.
spec fn inner(parts: Seq<Seq<char>>) -> Seq<Seq<char>>
    decreases parts.len(),
{
    if parts.len() == 0 {
        Seq::empty()
    } else {
        let before = inner(parts.drop_last());
        if counts(parts.last(), false) {
            before.push(parts.last())
        } else {
            before
        }
    }
}

proof fn lemma_meaningful_joined(a: Seq<Seq<char>>, b: Seq<Seq<char>>)
    requires
        a.len() >= 1,
    ensures
        meaningful(a + b) == meaningful(a) + inner(b),
    decreases b.len(),
{
    if b.len() == 0 {
        assert(a + b =~= a);
        assert(meaningful(a) + inner(b) =~= meaningful(a));
    } else {
        lemma_meaningful_joined(a, b.drop_last());
        assert((a + b).drop_last() =~= a + b.drop_last());
        assert(meaningful(a + b) =~= meaningful(a) + inner(b));
    }
}

/// A part in front that means nothing.
proof fn lemma_inner_first(part: Seq<char>, b: Seq<Seq<char>>)
    requires
        !counts(part, false),
    ensures
        inner(seq![part] + b) == inner(b),
    decreases b.len(),
{
    let all = seq![part] + b;
    if b.len() == 0 {
        assert(all.drop_last() =~= b);
        assert(all.last() == part);
    } else {
        lemma_inner_first(part, b.drop_last());
        assert(all.drop_last() =~= seq![part] + b.drop_last());
        assert(all.last() == b.last());
    }
}

/// What stands behind a slash, with a part in front of it that means nothing.
proof fn lemma_nothing_between(p: Seq<char>, part: Seq<char>, q: Seq<char>)
    requires
        !counts(part, false),
        parts(part) == seq![part],
    ensures
        components(p + seq!['/'] + (part + seq!['/'] + q)) == components(p + seq!['/'] + q),
{
    let more = part + seq!['/'] + q;
    lemma_parts_joined(p, more);
    lemma_parts_joined(p, q);
    lemma_parts_joined(part, q);
    lemma_parts_joined(p, p);
    lemma_meaningful_joined(parts(p), parts(more));
    lemma_meaningful_joined(parts(p), parts(q));
    lemma_inner_first(part, parts(q));
    let a = p + seq!['/'] + more;
    let b = p + seq!['/'] + q;
    assert(a[0] == b[0]);
}

/// A path can be spelled in several ways: with a slash repeated, with a dot
/// between two slashes, and with a slash at the end. The components are the same.
pub proof fn spellings_agree(p: Seq<char>, q: Seq<char>)
    ensures
        components(p + seq!['/', '/'] + q) == components(p + seq!['/'] + q),
        components(p + seq!['/', '.', '/'] + q) == components(p + seq!['/'] + q),
        p.len() > 0 ==> components(p + seq!['/']) == components(p),
{
    let empty = Seq::<char>::empty();
    let dot = seq!['.'];
    assert(parts(empty) =~= seq![empty]);
    assert(dot.drop_last() =~= empty);
    assert(parts(dot) =~= seq![dot]) by {
        assert(empty.push('.') =~= dot);
    }
    lemma_nothing_between(p, empty, q);
    assert(p + seq!['/'] + (empty + seq!['/'] + q) =~= p + seq!['/', '/'] + q);
    lemma_nothing_between(p, dot, q);
    assert(p + seq!['/'] + (dot + seq!['/'] + q) =~= p + seq!['/', '.', '/'] + q);
    if p.len() > 0 {
        lemma_parts_joined(p, empty);
        lemma_parts_joined(p, p);
        lemma_meaningful_joined(parts(p), parts(empty));
        lemma_inner_first(empty, Seq::empty());
        assert(seq![empty] + Seq::<Seq<char>>::empty() =~= seq![empty]);
        assert(p + seq!['/'] + empty =~= p + seq!['/']);
        assert(meaningful(parts(p)) + inner(parts(empty)) =~= meaningful(parts(p)));
    }
}

} // verus!
