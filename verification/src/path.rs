//! Where things go on disk, counted from the destination folder.

use vstd::prelude::*;

verus! {

/// One step of a path.
#[derive(Debug, PartialEq, Eq)]
pub enum PathStep {
    /// Join a name to the path so far.
    Join(String),
    /// Leave the last component of the path so far.
    Parent,
}

/// A path: the steps that lead to it from the destination folder.
#[derive(Debug, PartialEq, Eq)]
pub struct FilePath {
    pub steps: Vec<PathStep>,
}

/// A step as a mathematical value.
pub enum PathStepModel {
    Join(Seq<char>),
    Parent,
}

/// A path as a mathematical value.
pub type PathModel = Seq<PathStepModel>;

impl DeepView for PathStep {
    type V = PathStepModel;

    open spec fn deep_view(&self) -> PathStepModel {
        match self {
            PathStep::Join(name) => PathStepModel::Join(name@),
            PathStep::Parent => PathStepModel::Parent,
        }
    }
}

impl DeepView for FilePath {
    type V = PathModel;

    open spec fn deep_view(&self) -> PathModel {
        self.steps.deep_view()
    }
}

/// The path of `name` in the folder `path`.
pub open spec fn joined(path: PathModel, name: Seq<char>) -> PathModel {
    path.push(PathStepModel::Join(name))
}

/// The path that `path` has with its last component left off.
pub open spec fn parent_of(path: PathModel) -> PathModel {
    path.push(PathStepModel::Parent)
}

/// Where a place is counted from.
pub enum Base {
    /// The root of the file system.
    Root,
    /// The destination folder.
    Destination,
    /// The destination folder, with this many of its own components left off, as
    /// far as it has them.
    Above(nat),
}

/// A place on disk, on a system whose separator is the slash: the components that
/// lead to it. Two paths with one place lead to the same entry. Where a component
/// is the name of a parent folder it is kept as it is.
pub struct Place {
    pub base: Base,
    pub parts: Seq<Seq<char>>,
}

/// What stands between the slashes of `name`.
pub open spec fn segments(name: Seq<char>) -> Seq<Seq<char>>
    decreases name.len(),
{
    if name.len() == 0 {
        seq![Seq::empty()]
    } else {
        let before = segments(name.drop_last());
        if name.last() == '/' {
            before.push(Seq::empty())
        } else {
            before.drop_last().push(before.last().push(name.last()))
        }
    }
}

/// The components of `name`: an empty segment and a single dot are none.
pub open spec fn components(name: Seq<char>) -> Seq<Seq<char>> {
    segments(name).filter(|part: Seq<char>| part.len() > 0 && part != seq!['.'])
}

impl Place {
    /// The place of `name` in the folder `self`. A name that begins with a slash is
    /// counted from the root.
    pub open spec fn child(self, name: Seq<char>) -> Place {
        if name.len() > 0 && name[0] == '/' {
            Place { base: Base::Root, parts: components(name) }
        } else {
            Place { base: self.base, parts: self.parts + components(name) }
        }
    }

    /// The place with its last component left off.
    pub open spec fn parent(self) -> Place {
        if self.parts.len() > 0 {
            Place { base: self.base, parts: self.parts.drop_last() }
        } else {
            match self.base {
                Base::Root => self,
                Base::Destination => Place { base: Base::Above(1), parts: self.parts },
                Base::Above(n) => Place { base: Base::Above(n + 1), parts: self.parts },
            }
        }
    }
}

/// The place that `path` leads to.
pub open spec fn place_of(path: PathModel) -> Place
    decreases path.len(),
{
    if path.len() == 0 {
        Place { base: Base::Destination, parts: Seq::empty() }
    } else {
        match path.last() {
            PathStepModel::Join(name) => place_of(path.drop_last()).child(name),
            PathStepModel::Parent => place_of(path.drop_last()).parent(),
        }
    }
}

/// Joining a name leads to the place of the name in the folder, and leaving the
/// last component to the place of the parent.
pub proof fn law_steps_move(path: PathModel, name: Seq<char>)
    ensures
        place_of(joined(path, name)) == place_of(path).child(name),
        place_of(parent_of(path)) == place_of(path).parent(),
{
    assert(joined(path, name).drop_last() == path);
    assert(parent_of(path).drop_last() == path);
}

/// A name without a slash, which is neither empty nor a single dot, is one
/// component: it leads to an entry of the folder, whose parent is the folder.
pub proof fn law_plain_name_is_entry(folder: Place, name: Seq<char>)
    requires
        !name.contains('/'),
        name.len() > 0,
        name != seq!['.'],
    ensures
        folder.child(name) == (Place { base: folder.base, parts: folder.parts.push(name) }),
        folder.child(name).parent() == folder,
{
    lemma_one_segment(name);
    let test = |part: Seq<char>| part.len() > 0 && part != seq!['.'];
    reveal(Seq::filter);
    reveal_with_fuel(Seq::filter, 3);
    assert(segments(name).drop_last() =~= Seq::empty());
    assert(components(name) =~= seq![name]);
    assert(name[0] != '/') by {
        assert(name.contains(name[0]));
    }
    assert(folder.parts + seq![name] =~= folder.parts.push(name));
    assert(folder.parts.push(name).drop_last() =~= folder.parts);
}

/// A text without a slash is its only segment.
pub proof fn lemma_one_segment(name: Seq<char>)
    requires
        !name.contains('/'),
    ensures
        segments(name) == seq![name],
    decreases name.len(),
{
    if name.len() > 0 {
        let rest = name.drop_last();
        assert forall|i: int| 0 <= i < rest.len() implies rest[i] != '/' by {
            assert(name.contains(name[i]));
        }
        lemma_one_segment(rest);
        assert(name.contains(name.last()));
        assert(rest.push(name.last()) =~= name);
        assert(segments(name) =~= seq![name]);
    } else {
        assert(name =~= Seq::empty());
    }
}

impl Clone for PathStep {
    fn clone(&self) -> (res: PathStep)
        ensures
            res.deep_view() == self.deep_view(),
    {
        match self {
            PathStep::Join(name) => PathStep::Join(name.clone()),
            PathStep::Parent => PathStep::Parent,
        }
    }
}

impl Clone for FilePath {
    fn clone(&self) -> (res: FilePath)
        ensures
            res.deep_view() == self.deep_view(),
    {
        let mut steps: Vec<PathStep> = Vec::new();
        let mut i: usize = 0;
        assert(steps.deep_view() =~= self.steps.deep_view().take(0));
        while i < self.steps.len()
            invariant
                i <= self.steps.len(),
                steps.deep_view() == self.steps.deep_view().take(i as int),
            decreases self.steps.len() - i,
        {
            let step: PathStep = self.steps[i].clone();
            let ghost before = steps.deep_view();
            steps.push(step);
            assert(steps.deep_view() =~= before.push(step.deep_view()));
            assert(self.steps.deep_view().take(i + 1) =~= before.push(step.deep_view()));
            i += 1;
        }
        assert(self.steps.deep_view().take(i as int) =~= self.steps.deep_view());
        FilePath { steps }
    }
}

impl FilePath {
    /// The destination folder itself.
    pub fn destination() -> (res: FilePath)
        ensures
            res.deep_view() == PathModel::empty(),
    {
        let res = FilePath { steps: Vec::new() };
        assert(res.deep_view() =~= PathModel::empty());
        res
    }

    /// The path of `name` in the folder `self`.
    pub fn join(&self, name: &str) -> (res: FilePath)
        ensures
            res.deep_view() == joined(self.deep_view(), name@),
    {
        let mut res: FilePath = self.clone();
        let ghost before = res.deep_view();
        res.steps.push(PathStep::Join(name.to_owned()));
        assert(res.deep_view() =~= before.push(PathStepModel::Join(name@)));
        res
    }

    /// The path `self` with its last component left off.
    pub fn parent(&self) -> (res: FilePath)
        ensures
            res.deep_view() == parent_of(self.deep_view()),
    {
        let mut res: FilePath = self.clone();
        let ghost before = res.deep_view();
        res.steps.push(PathStep::Parent);
        assert(res.deep_view() =~= before.push(PathStepModel::Parent));
        res
    }
}

/// Joining a name and leaving a component each add one step, and leave the steps
/// before it as they are.
pub proof fn law_steps_are_added(path: PathModel, name: Seq<char>)
    ensures
        joined(path, name) == path.push(PathStepModel::Join(name)),
        parent_of(path) == path.push(PathStepModel::Parent),
{
}

/// Two paths that are seen alike have the same steps.
pub proof fn law_path_is_seen_whole(a: FilePath, b: FilePath, i: int)
    requires
        a.deep_view() == b.deep_view(),
    ensures
        a.steps@.len() == b.steps@.len(),
        0 <= i < a.steps@.len() ==> match (a.steps@[i], b.steps@[i]) {
            (PathStep::Join(x), PathStep::Join(y)) => x@ == y@,
            (PathStep::Parent, PathStep::Parent) => true,
            _ => false,
        },
{
    assert(a.steps@.len() == a.deep_view().len());
    assert(b.steps@.len() == b.deep_view().len());
    if 0 <= i < a.steps@.len() {
        assert(a.deep_view()[i] == a.steps@[i].deep_view());
        assert(b.deep_view()[i] == b.steps@[i].deep_view());
    }
}

} // verus!
