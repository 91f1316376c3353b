use vstd::prelude::*;

verus! {

/// One component of a file-system path, as `std::path::Component` splits it.
#[derive(Debug, PartialEq, Eq, Hash)]
pub enum PathComponent {
    RootDir,
    CurDir,
    ParentDir,
    Normal(String),
}

/// What a path component stands for: its kind and, for a name, its characters.
pub enum ComponentView {
    RootDir,
    CurDir,
    ParentDir,
    Normal(Seq<char>),
}

impl View for PathComponent {
    type V = ComponentView;

    open spec fn view(&self) -> ComponentView {
        match self {
            PathComponent::RootDir => ComponentView::RootDir,
            PathComponent::CurDir => ComponentView::CurDir,
            PathComponent::ParentDir => ComponentView::ParentDir,
            PathComponent::Normal(s) => ComponentView::Normal(s@),
        }
    }
}

/// The components that `std::path::Path::components` yields for a path text.
pub uninterp spec fn std_path_components(text: Seq<char>) -> Seq<ComponentView>;

/// A path as the caller wrote it, with its components. Two paths name the same
/// file exactly when their components are equal, as `std::path::Path` compares.
#[derive(Debug)]
pub struct GfsPath {
    pub text: String,
    pub components: Vec<PathComponent>,
}

/// What a path stands for: its text and its components.
pub struct PathView {
    pub text: Seq<char>,
    pub components: Seq<ComponentView>,
}

impl View for GfsPath {
    type V = PathView;

    open spec fn view(&self) -> PathView {
        PathView { text: self.text@, components: components_view(self.components@) }
    }
}

impl Clone for PathComponent {
    fn clone(&self) -> (r: Self)
        ensures
            r@ == self@,
    {
        match self {
            PathComponent::RootDir => PathComponent::RootDir,
            PathComponent::CurDir => PathComponent::CurDir,
            PathComponent::ParentDir => PathComponent::ParentDir,
            PathComponent::Normal(s) => PathComponent::Normal(s.clone()),
        }
    }
}

/// Copies a component vector.
pub fn clone_components(c: &Vec<PathComponent>) -> (r: Vec<PathComponent>)
    ensures
        components_view(r@) == components_view(c@),
{
    let mut components: Vec<PathComponent> = Vec::new();
    let n = c.len();
    let mut i: usize = 0;
    while i < n
        invariant
            n == c@.len(),
            i <= n,
            components@.len() == i,
            forall|j: int| 0 <= j < i ==> components@[j]@ == c@[j]@,
        decreases n - i,
    {
        components.push(c[i].clone());
        i = i + 1;
    }
    proof {
        assert(components_view(components@) =~= components_view(c@));
    }
    components
}

impl Clone for GfsPath {
    fn clone(&self) -> (r: Self)
        ensures
            r@ == self@,
    {
        GfsPath { text: self.text.clone(), components: clone_components(&self.components) }
    }
}

/// The component views of a component vector.
pub open spec fn components_view(c: Seq<PathComponent>) -> Seq<ComponentView> {
    c.map_values(|x: PathComponent| x@)
}

impl GfsPath {
    /// The components of this path, by view: the identity of the path.
    pub open spec fn key(&self) -> Seq<ComponentView> {
        components_view(self.components@)
    }

    /// Well-formed: the components are those of the text.
    pub open spec fn wf(&self) -> bool {
        self.key() == std_path_components(self.text@)
    }

    /// The path written as `text`, with the components that
    /// `std::path::Path::components` splits it into.
    pub fn from_text(text: String) -> (p: GfsPath)
        ensures
            p.text@ == text@,
            p.key() == std_path_components(text@),
            p.wf(),
    {
        let components = std_components(text.as_str());
        GfsPath { text, components }
    }
}

/// `std::path::Path::components` on a path text, each component converted one
/// for one (a name's text taken losslessly: it is part of a valid string). The
/// result is named `std_path_components(text)`.
#[verifier::external_body]
fn std_components(text: &str) -> (r: Vec<PathComponent>)
    ensures
        components_view(r@) == std_path_components(text@),
{
    std::path::Path::new(text).components().map(|c| match c {
        std::path::Component::RootDir => PathComponent::RootDir,
        std::path::Component::CurDir => PathComponent::CurDir,
        std::path::Component::ParentDir => PathComponent::ParentDir,
        std::path::Component::Normal(s) => PathComponent::Normal(s.to_string_lossy().into_owned()),
        std::path::Component::Prefix(p) => PathComponent::Normal(p.as_os_str().to_string_lossy().into_owned()),
    }).collect()
}

/// Component-wise equality of two components, by view.
pub fn component_eq(a: &PathComponent, b: &PathComponent) -> (r: bool)
    ensures
        r == (a@ == b@),
{
    match (a, b) {
        (PathComponent::RootDir, PathComponent::RootDir) => true,
        (PathComponent::CurDir, PathComponent::CurDir) => true,
        (PathComponent::ParentDir, PathComponent::ParentDir) => true,
        (PathComponent::Normal(x), PathComponent::Normal(y)) => x.eq(y),
        _ => false,
    }
}

/// Whether `base`'s components are a prefix of `path`'s components
/// (`Path::starts_with` compares whole components).
pub open spec fn is_component_prefix(base: Seq<ComponentView>, path: Seq<ComponentView>) -> bool {
    base.len() <= path.len() && path.take(base.len() as int) == base
}

/// Whether `child` lies directly inside `dir`: it is not `dir` itself, it
/// starts with `dir`, and the rest is a single component.
pub open spec fn is_direct_child(dir: Seq<ComponentView>, child: Seq<ComponentView>) -> bool {
    child != dir && is_component_prefix(dir, child) && child.len() == dir.len() + 1
}

/// Whether two paths have equal components.
pub fn same_path(a: &GfsPath, b: &GfsPath) -> (r: bool)
    ensures
        r == (a.key() == b.key()),
{
    let n = a.components.len();
    if n != b.components.len() {
        proof {
            assert(a.key().len() != b.key().len());
        }
        return false;
    }
    let mut i: usize = 0;
    while i < n
        invariant
            n == a.components@.len(),
            n == b.components@.len(),
            i <= n,
            forall|j: int| 0 <= j < i ==> a.components@[j]@ == b.components@[j]@,
        decreases n - i,
    {
        if !component_eq(&a.components[i], &b.components[i]) {
            proof {
                assert(a.key()[i as int] != b.key()[i as int]);
            }
            return false;
        }
        i = i + 1;
    }
    proof {
        assert(a.key() =~= b.key());
    }
    true
}

/// Whether `base`'s components are a prefix of `path`'s components.
pub fn starts_with(path: &GfsPath, base: &GfsPath) -> (r: bool)
    ensures
        r == is_component_prefix(base.key(), path.key()),
{
    let n = base.components.len();
    if n > path.components.len() {
        return false;
    }
    let mut i: usize = 0;
    while i < n
        invariant
            n == base.components@.len(),
            n <= path.components@.len(),
            i <= n,
            forall|j: int| 0 <= j < i ==> path.components@[j]@ == base.components@[j]@,
        decreases n - i,
    {
        if !component_eq(&path.components[i], &base.components[i]) {
            proof {
                assert(path.key().take(n as int)[i as int] != base.key()[i as int]);
            }
            return false;
        }
        i = i + 1;
    }
    proof {
        assert(path.key().take(n as int) =~= base.key());
    }
    true
}

} // verus!
