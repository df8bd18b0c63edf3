//! Paths as texts, with `/` between their components, and the calls into the
//! `camino` crate that take them apart and put them together.

use vstd::prelude::*;

use crate::text::{
    is_free_of, lemma_pieces_are_free, lemma_split_append, split_on, texts, view_of,
};

verus! {

/// Whether a path starts at the root.
pub open spec fn is_absolute(path: Seq<char>) -> bool {
    path.len() > 0 && path[0] == '/'
}

/// The components of a path: the root first if the path starts there, then what
/// stands between the slashes. Nothing between two slashes, and a `.` anywhere
/// but at the beginning, is no component.
pub open spec fn components_of(path: Seq<char>) -> Seq<Seq<char>> {
    let pieces = split_on(path, seq!['/']);
    let root = if is_absolute(path) {
        seq![seq!['/']]
    } else {
        Seq::<Seq<char>>::empty()
    };
    let first = if pieces[0].len() > 0 {
        seq![pieces[0]]
    } else {
        Seq::<Seq<char>>::empty()
    };
    root + first + pieces.drop_first().filter(|p: Seq<char>| p.len() > 0 && p != seq!['.'])
}

/// The name of the file or directory that a path leads to: its last component,
/// unless that is the root, `.` or `..`.
pub open spec fn file_name_of(path: Seq<char>) -> Option<Seq<char>> {
    let components = components_of(path);
    if components.len() == 0 || components.last() == seq!['/'] || components.last() == seq!['.']
        || components.last() == seq!['.', '.'] {
        None
    } else {
        Some(components.last())
    }
}

/// Where the last dot of a file name stands.
pub open spec fn last_dot(name: Seq<char>) -> Option<int>
    decreases name.len(),
{
    if name.len() == 0 {
        None
    } else if name.last() == '.' {
        Some(name.len() - 1)
    } else {
        last_dot(name.drop_last())
    }
}

/// A file name without its extension: all of it, if its last dot is its first
/// character or it has none.
pub open spec fn stem_of_name(name: Seq<char>) -> Seq<char> {
    match last_dot(name) {
        Some(i) if i > 0 => name.take(i),
        _ => name,
    }
}

/// What follows the last dot of a file name: nothing, if that dot is its first
/// character or it has none.
pub open spec fn extension_of_name(name: Seq<char>) -> Option<Seq<char>> {
    match last_dot(name) {
        Some(i) if i > 0 => Some(name.skip(i + 1)),
        _ => None,
    }
}

/// The stem of the file name of a path.
pub open spec fn stem_of(path: Seq<char>) -> Option<Seq<char>> {
    match file_name_of(path) {
        Some(name) => Some(stem_of_name(name)),
        None => None,
    }
}

/// The extension of the file name of a path.
pub open spec fn extension_of(path: Seq<char>) -> Option<Seq<char>> {
    match file_name_of(path) {
        Some(name) => extension_of_name(name),
        None => None,
    }
}

/// The stem of the file name of a path, empty where there is no file name.
pub open spec fn stem_or_empty_of(path: Seq<char>) -> Seq<char> {
    match stem_of(path) {
        Some(stem) => stem,
        None => Seq::<char>::empty(),
    }
}

/// Whether a path has a parent: it does, unless it is empty or the root.
pub open spec fn has_parent(path: Seq<char>) -> bool {
    components_of(path).len() > 0 && components_of(path).last() != seq!['/']
}

/// The components of the parent of a path; none, where there is no parent.
pub open spec fn parent_components_of(path: Seq<char>) -> Seq<Seq<char>> {
    if has_parent(path) {
        components_of(path).drop_last()
    } else {
        Seq::<Seq<char>>::empty()
    }
}

/// A base that a path can be appended to: a slash is put behind it, unless it is
/// empty or ends with one.
pub open spec fn slashed(base: Seq<char>) -> Seq<char> {
    if base.len() == 0 || base.last() == '/' {
        base
    } else {
        base.push('/')
    }
}

/// A path put behind a base: an absolute path stands for itself, any other is
/// appended.
pub open spec fn joined_path(base: Seq<char>, path: Seq<char>) -> Seq<char> {
    if is_absolute(path) {
        path
    } else {
        slashed(base) + path
    }
}

/// Calls `camino::Utf8Path::components`, and takes each component as a text. On
/// Unix they are what stands between the slashes; repeated slashes, a trailing
/// slash and a `.` that is not at the beginning are dropped, and a leading slash
/// is a component of its own.
#[verifier::external_body]
pub(crate) fn components(path: &str) -> (r: Vec<String>)
    ensures
        texts(r@) == components_of(path@),
{
    camino::Utf8Path::new(path).components().map(|c| c.as_str().to_owned()).collect()
}

/// Calls `camino::Utf8Path::file_stem`: the part of the file name in front of its
/// last dot, or the entire file name if it has no dot but a leading one.
#[verifier::external_body]
pub(crate) fn file_stem(path: &str) -> (r: Option<String>)
    ensures
        view_of(r) == stem_of(path@),
{
    camino::Utf8Path::new(path).file_stem().map(|s| s.to_owned())
}

/// Calls `camino::Utf8Path::extension`: the part of the file name behind its last
/// dot, if it has a dot other than a leading one.
#[verifier::external_body]
pub(crate) fn extension(path: &str) -> (r: Option<String>)
    ensures
        view_of(r) == extension_of(path@),
{
    camino::Utf8Path::new(path).extension().map(|s| s.to_owned())
}

/// What `camino::Utf8Path::parent` gives for a path.
pub uninterp spec fn parent_path(path: Seq<char>) -> Option<Seq<char>>;

/// Calls `camino::Utf8Path::parent`: the path without its last component, and
/// none for the empty path and the root. How the parent is written depends on the
/// path alone; where the components leave that open, it is not stated.
#[verifier::external_body]
pub(crate) fn parent(path: &str) -> (r: Option<String>)
    ensures
        view_of(r) == parent_path(path@),
        r is Some <==> has_parent(path@),
        r matches Some(p) ==> components_of(p@) == components_of(path@).drop_last(),
{
    camino::Utf8Path::new(path).parent().map(|p| p.as_str().to_owned())
}

/// Calls `camino::Utf8Path::join`. On Unix an absolute path replaces the base;
/// any other is appended to it, with a slash between if there is need of one.
#[verifier::external_body]
pub(crate) fn join_path(base: &str, path: &str) -> (r: String)
    ensures
        r@ == joined_path(base@, path@),
{
    camino::Utf8Path::new(base).join(path).into_string()
}

/// The stem of the file name of a path, empty where there is no file name.
pub fn stem_or_empty(path: &str) -> (r: String)
    ensures
        r@ == stem_or_empty_of(path@),
{
    match file_stem(path) {
        Some(stem) => stem,
        None => String::new(),
    }
}

/// The components of the parent of a path, outermost first.
pub fn parent_components(path: &str) -> (r: Vec<String>)
    ensures
        texts(r@) == parent_components_of(path@),
{
    match parent(path) {
        Some(p) => components(p.as_str()),
        None => {
            let none: Vec<String> = Vec::new();
            assert(texts(none@) == Seq::<Seq<char>>::empty());
            none
        },
    }
}

// ── laws ─────────────────────────────────────────────────────────────────────

/// The last dot stands in front of an extension that has none itself.
proof fn lemma_last_dot(stem: Seq<char>, ext: Seq<char>)
    requires
        is_free_of(ext, seq!['.']),
    ensures
        last_dot(stem.push('.') + ext) == Some(stem.len() as int),
    decreases ext.len(),
{
    let name = stem.push('.') + ext;
    if ext.len() == 0 {
        assert(name =~= stem.push('.'));
    } else {
        let front = ext.drop_last();
        assert(seq!['.'][0] == '.');
        assert(ext.last() == ext[ext.len() - 1]);
        assert(name.last() == ext.last());
        assert(forall|i: int| 0 <= i < front.len() ==> #[trigger] front[i] == ext[i]);
        assert(name.drop_last() =~= stem.push('.') + front);
        lemma_last_dot(stem, front);
    }
}

/// No dot stands behind the last one.
proof fn lemma_after_last_dot(name: Seq<char>)
    ensures
        match last_dot(name) {
            Some(at) => 0 <= at < name.len() && forall|i: int|
                at < i < name.len() ==> #[trigger] name[i] != '.',
            None => true,
        },
    decreases name.len(),
{
    if name.len() > 0 && name.last() != '.' {
        lemma_after_last_dot(name.drop_last());
        if let Some(at) = last_dot(name) {
            assert forall|i: int| at < i < name.len() implies #[trigger] name[i] != '.' by {
                if i < name.len() - 1 {
                    assert(name.drop_last()[i] == name[i]);
                }
            }
        }
    }
}

/// A file name holds no slash.
proof fn lemma_file_name_is_free(path: Seq<char>)
    ensures
        file_name_of(path) matches Some(name) ==> is_free_of(name, seq!['/']),
{
    let pieces = split_on(path, seq!['/']);
    let keep = |p: Seq<char>| p.len() > 0 && p != seq!['.'];
    let rest = pieces.drop_first().filter(keep);
    lemma_pieces_are_free(path, seq!['/']);
    let components = components_of(path);
    if file_name_of(path) is Some {
        if rest.len() > 0 {
            assert(components.last() == rest.last());
            pieces.drop_first().lemma_filter_contains_rev(keep, rest.last());
            let j = choose|j: int|
                0 <= j < pieces.drop_first().len() && pieces.drop_first()[j] == rest.last();
            assert(pieces[j + 1] == rest.last());
        } else if pieces[0].len() > 0 {
            assert(components.last() == pieces[0]);
        } else {
            assert(components.len() == 1 && components.last() == seq!['/']);
        }
    }
}

/// An extension holds neither a dot nor a slash.
pub proof fn extension_is_plain(path: Seq<char>)
    ensures
        extension_of(path) matches Some(ext) ==> is_free_of(ext, seq!['.']) && is_free_of(
            ext,
            seq!['/'],
        ),
{
    lemma_file_name_is_free(path);
    if let Some(name) = file_name_of(path) {
        lemma_after_last_dot(name);
        if let Some(ext) = extension_of_name(name) {
            let at = last_dot(name)->0;
            assert(forall|i: int| 0 <= i < ext.len() ==> #[trigger] ext[i] == name[at + 1 + i]);
        }
    }
}

/// The stem of a file in a directory is what was put in front of its extension.
pub proof fn stem_is_read_back(dir: Seq<char>, stem: Seq<char>, ext: Seq<char>)
    requires
        stem.len() > 0,
        is_free_of(stem, seq!['/']),
        is_free_of(ext, seq!['/']),
        is_free_of(ext, seq!['.']),
        stem != seq!['.'] || ext.len() > 0,
    ensures
        stem_of(dir.push('/') + (stem.push('.') + ext)) == Some(stem),
        extension_of(dir.push('/') + (stem.push('.') + ext)) == Some(ext),
{
    let slash = seq!['/'];
    let name = stem.push('.') + ext;
    let path = dir.push('/') + name;
    assert(slash[0] == '/');
    assert(is_free_of(name, slash)) by {
        assert forall|i: int| 0 <= i < name.len() implies !slash.contains(#[trigger] name[i]) by {
            if i < stem.len() {
                assert(name[i] == stem[i]);
            } else if i > stem.len() {
                assert(name[i] == ext[i - stem.len() - 1]);
            }
        }
    }
    let above = split_on(dir, slash);
    lemma_pieces_are_free(dir, slash);
    assert(dir.push('/').drop_last() =~= dir);
    assert(split_on(dir.push('/'), slash) == above.push(Seq::<char>::empty()));
    lemma_split_append(dir.push('/'), name, slash);
    assert(above.push(Seq::<char>::empty()).drop_last() =~= above);
    assert(Seq::<char>::empty() + name =~= name);
    let pieces = split_on(path, slash);
    assert(pieces == above.push(name));
    let keep = |p: Seq<char>| p.len() > 0 && p != seq!['.'];
    assert(pieces.drop_first() =~= above.drop_first().push(name));
    assert(above.drop_first().push(name).drop_last() =~= above.drop_first());
    assert(name.len() >= 2);
    assert(keep(name));
    reveal(Seq::filter);
    assert(pieces.drop_first().filter(keep) == above.drop_first().filter(keep).push(name));
    assert(components_of(path).last() == name);
    assert(name != slash) by {
        assert(name.len() >= 2);
    }
    assert(name != seq!['.', '.']) by {
        if name == seq!['.', '.'] {
            assert(name[0] == stem[0]);
            assert(stem =~= seq!['.']);
        }
    }
    lemma_last_dot(stem, ext);
    assert(name.take(stem.len() as int) =~= stem);
    assert(name.skip(stem.len() as int + 1) =~= ext);
}

/// The directories above a path are all of its components but the last, outermost first;
/// the root and the empty path have none. The stem of a path without a file name is empty.
pub proof fn parents_are_all_components_but_the_last(path: Seq<char>)
    ensures
        ({
            let components = components_of(path);
            let parents = parent_components_of(path);
            &&& has_parent(path) <==> components.len() > 0 && components[components.len() - 1]
                != seq!['/']
            &&& has_parent(path) ==> parents.len() == components.len() - 1 && forall|i: int|
                0 <= i < parents.len() ==> #[trigger] parents[i] == components[i]
            &&& !has_parent(path) ==> parents.len() == 0
            &&& stem_of(path) matches Some(stem) ==> stem_or_empty_of(path) == stem
            &&& stem_of(path) is None ==> stem_or_empty_of(path).len() == 0
        }),
{
}

} // verus!
