//! Filesystem paths as sequences of components, and the ancestor relation
//! between them.

use vstd::prelude::*;

verus! {

/// The kind of one path component.
#[derive(Clone, Copy, Debug, PartialEq, Eq, Structural)]
pub enum PartKind {
    /// A platform prefix such as a drive letter.
    Prefix,
    /// The root directory.
    RootDir,
    /// A reference to the current directory.
    CurDir,
    /// A reference to the parent directory.
    ParentDir,
    /// An ordinary named component.
    Normal,
}

/// One component of a path: its kind and its text as written.
#[derive(Debug)]
pub struct PathPart {
    pub kind: PartKind,
    pub text: String,
}

/// The mathematical value of a component.
pub type PartModel = (PartKind, Seq<char>);

impl View for PathPart {
    type V = PartModel;

    open spec fn view(&self) -> PartModel {
        (self.kind, self.text@)
    }
}

/// The components that `std::path::Path::components` yields for a path
/// written as `text`, on the platform that the library is built for.
pub uninterp spec fn path_parts(text: Seq<char>) -> Seq<PartModel>;

/// The models of a list of components, in order.
pub open spec fn part_models(parts: Seq<PathPart>) -> Seq<PartModel> {
    parts.map_values(|part: PathPart| part@)
}

/// A component at which walking up from a path stops: a path that ends in
/// one has no parent.
pub open spec fn is_anchor(kind: PartKind) -> bool {
    kind == PartKind::Prefix || kind == PartKind::RootDir
}

/// Whether the path with components `outer` is `inner` itself or one of its
/// ancestors: `outer` is reached from `inner` by removing trailing
/// components, none of which is an anchor.
pub open spec fn parts_contain(outer: Seq<PartModel>, inner: Seq<PartModel>) -> bool {
    &&& outer.is_prefix_of(inner)
    &&& forall|k: int| outer.len() <= k < inner.len() ==> !is_anchor(#[trigger] inner[k].0)
}

/// Whether the path written as `outer` is the path written as `inner` or one
/// of its filesystem ancestors.
pub open spec fn contains(outer: Seq<char>, inner: Seq<char>) -> bool {
    parts_contain(path_parts(outer), path_parts(inner))
}

/// Whether the path written as `outer` is a filesystem ancestor of the path
/// written as `inner`: it contains it and is not the same path.
pub open spec fn strictly_contains(outer: Seq<char>, inner: Seq<char>) -> bool {
    contains(outer, inner) && path_parts(outer) != path_parts(inner)
}

/// Splits a path into its components with `std::path::Path::components`,
/// keeping for each its kind and its text. The result is the one that the
/// name `path_parts` stands for.
#[verifier::external_body]
fn split_path(text: &str) -> (parts: Vec<PathPart>)
    ensures
        part_models(parts@) == path_parts(text@),
{
    std::path::Path::new(text).components().map(|part| PathPart {
        kind: match part {
            std::path::Component::Prefix(_) => PartKind::Prefix,
            std::path::Component::RootDir => PartKind::RootDir,
            std::path::Component::CurDir => PartKind::CurDir,
            std::path::Component::ParentDir => PartKind::ParentDir,
            std::path::Component::Normal(_) => PartKind::Normal,
        },
        text: part.as_os_str().to_string_lossy().into_owned(),
    }).collect()
}

/// The path that `std::path::Path::join` gives for `rest` joined to `base`,
/// on the platform that the library is built for.
pub uninterp spec fn joined(base: Seq<char>, rest: Seq<char>) -> Seq<char>;

/// Joins `rest` to `base` with `std::path::Path::join`. The result is the one
/// that the name `joined` stands for.
#[verifier::external_body]
pub(crate) fn join_path(base: &str, rest: &str) -> (path: String)
    ensures
        path@ == joined(base@, rest@),
{
    std::path::Path::new(base).join(rest).to_string_lossy().into_owned()
}

/// Containment is transitive, and strict as soon as one of its two steps is.
pub proof fn lemma_contains_transitive(a: Seq<char>, b: Seq<char>, c: Seq<char>)
    requires
        contains(a, b),
        contains(b, c),
    ensures
        contains(a, c),
        strictly_contains(a, b) || strictly_contains(b, c) ==> strictly_contains(a, c),
{
    let pa = path_parts(a);
    let pb = path_parts(b);
    let pc = path_parts(c);
    assert forall|k: int| pa.len() <= k < pc.len() implies !is_anchor(#[trigger] pc[k].0) by {
        if k < pb.len() {
            assert(pc[k] == pb[k]);
        }
    }
    if pa == pc {
        assert(pb =~= pc);
    }
}

/// Whether the first list of components is, component by component, a
/// leading part of the second, with nothing but ordinary components after it.
pub fn parts_within(outer: &Vec<PathPart>, inner: &Vec<PathPart>) -> (within: bool)
    ensures
        within == parts_contain(part_models(outer@), part_models(inner@)),
{
    if outer.len() > inner.len() {
        return false;
    }
    let mut i: usize = 0;
    while i < outer.len()
        invariant
            i <= outer.len() <= inner.len(),
            forall|k: int| 0 <= k < i ==> part_models(outer@)[k] == part_models(inner@)[k],
        decreases outer.len() - i,
    {
        if !(outer[i].kind == inner[i].kind && outer[i].text == inner[i].text) {
            assert(part_models(outer@)[i as int] != part_models(inner@)[i as int]);
            return false;
        }
        i += 1;
    }
    while i < inner.len()
        invariant
            outer.len() <= i <= inner.len(),
            part_models(outer@).is_prefix_of(part_models(inner@)),
            forall|k: int| outer.len() <= k < i ==> !is_anchor(#[trigger] part_models(inner@)[k].0),
        decreases inner.len() - i,
    {
        if inner[i].kind == PartKind::Prefix || inner[i].kind == PartKind::RootDir {
            assert(is_anchor(part_models(inner@)[i as int].0));
            return false;
        }
        i += 1;
    }
    true
}

/// Whether the path written as `outer` is a filesystem ancestor of the path
/// written as `inner`.
pub fn path_below(outer: &str, inner: &str) -> (below: bool)
    ensures
        below == strictly_contains(outer@, inner@),
{
    let outer_parts = split_path(outer);
    let inner_parts = split_path(inner);
    let within = parts_within(&outer_parts, &inner_parts);
    proof {
        let outer_models = part_models(outer_parts@);
        let inner_models = part_models(inner_parts@);
        if within && outer_parts.len() == inner_parts.len() {
            assert(outer_models =~= inner_models);
        }
    }
    within && outer_parts.len() < inner_parts.len()
}

} // verus!
