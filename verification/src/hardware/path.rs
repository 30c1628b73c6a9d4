//! Unix path components, as `std::path::Path::components` yields them.

use vstd::prelude::*;

use crate::text::{split_char, split_on_char, lemma_split_char_nonempty, views};

verus! {

/// One component of a Unix path.
#[derive(Debug, Clone, PartialEq, Eq)]
pub enum Component {
    RootDir,
    CurDir,
    ParentDir,
    Normal(Vec<char>),
}

/// A path component with its name as a character sequence.
pub enum ComponentView {
    RootDir,
    CurDir,
    ParentDir,
    Normal(Seq<char>),
}

impl View for Component {
    type V = ComponentView;

    open spec fn view(&self) -> ComponentView {
        match self {
            Component::RootDir => ComponentView::RootDir,
            Component::CurDir => ComponentView::CurDir,
            Component::ParentDir => ComponentView::ParentDir,
            Component::Normal(n) => ComponentView::Normal(n@),
        }
    }
}

/// Whether a path begins at the root directory.
pub open spec fn has_root(s: Seq<char>) -> bool {
    s.len() > 0 && s[0] == '/'
}

/// The component that the `i`-th `/`-separated part of a path's body gives:
/// empty parts and `.` give none, except that a relative path that starts
/// with `.` keeps it as `CurDir`.
pub open spec fn part_component(p: Seq<char>, first_of_relative: bool) -> Option<ComponentView> {
    if p.len() == 0 {
        None
    } else if p == seq!['.'] {
        if first_of_relative {
            Some(ComponentView::CurDir)
        } else {
            None
        }
    } else if p == seq!['.', '.'] {
        Some(ComponentView::ParentDir)
    } else {
        Some(ComponentView::Normal(p))
    }
}

/// The components of the given parts, in order; `relative` says whether the
/// path has no root, so that its first part may be `CurDir`.
pub open spec fn parts_components(parts: Seq<Seq<char>>, relative: bool) -> Seq<ComponentView>
    decreases parts.len(),
{
    if parts.len() == 0 {
        Seq::empty()
    } else {
        let prev = parts_components(parts.drop_last(), relative);
        match part_component(parts.last(), relative && parts.len() == 1) {
            Some(c) => prev.push(c),
            None => prev,
        }
    }
}

/// `Path::components` on Unix: `RootDir` for a leading `/`, then the parts
/// between separators, without empty ones and without `.` except as the first
/// component of a relative path.
pub open spec fn components(s: Seq<char>) -> Seq<ComponentView> {
    if has_root(s) {
        seq![ComponentView::RootDir] + parts_components(split_char(s.drop_first(), '/'), false)
    } else {
        parts_components(split_char(s, '/'), true)
    }
}

/// `Path::starts_with`: the components of `base` begin the components of `path`.
pub open spec fn path_starts_with(path: Seq<char>, base: Seq<char>) -> bool {
    let pc = components(path);
    let bc = components(base);
    bc.len() <= pc.len() && pc.take(bc.len() as int) == bc
}

/// The character sequences that a sequence of components holds.
pub open spec fn component_views(v: Seq<Component>) -> Seq<ComponentView> {
    v.map_values(|c: Component| c@)
}

/// Computes `components`.
pub fn path_components(s: &[char]) -> (r: Vec<Component>)
    ensures
        component_views(r@) == components(s@),
{
    let rooted = s.len() > 0 && s[0] == '/';
    let body = if rooted {
        crate::text::copy_range(s, 1, s.len())
    } else {
        crate::text::copy_range(s, 0, s.len())
    };
    assert(rooted ==> body@ =~= s@.drop_first());
    assert(!rooted ==> body@ =~= s@);
    let parts = split_on_char(&body, '/');
    let ghost pv = views(parts@);
    let mut r: Vec<Component> = Vec::new();
    if rooted {
        r.push(Component::RootDir);
    }
    let ghost head = component_views(r@);
    let mut i: usize = 0;
    while i < parts.len()
        invariant
            i <= parts.len(),
            pv == views(parts@),
            head == (if rooted {
                seq![ComponentView::RootDir]
            } else {
                Seq::<ComponentView>::empty()
            }),
            component_views(r@) == head + parts_components(pv.take(i as int), !rooted),
        decreases parts.len() - i,
    {
        let p = &parts[i];
        assert(pv.take(i + 1).drop_last() =~= pv.take(i as int));
        assert(pv.take(i + 1).last() == p@);
        let ghost before = component_views(r@);
        if p.len() == 0 {
        } else if p.len() == 1 && p[0] == '.' {
            assert(p@ =~= seq!['.']);
            if !rooted && i == 0 {
                r.push(Component::CurDir);
                assert(component_views(r@) =~= before.push(ComponentView::CurDir));
            }
        } else if p.len() == 2 && p[0] == '.' && p[1] == '.' {
            assert(p@ =~= seq!['.', '.']);
            r.push(Component::ParentDir);
            assert(component_views(r@) =~= before.push(ComponentView::ParentDir));
        } else {
            assert(p@ != seq!['.']);
            assert(p@ != seq!['.', '.']);
            let n = crate::text::copy_range(p, 0, p.len());
            assert(n@ =~= p@);
            r.push(Component::Normal(n));
            assert(component_views(r@) =~= before.push(ComponentView::Normal(p@)));
        }
        i = i + 1;
    }
    assert(pv.take(parts.len() as int) =~= pv);
    r
}

/// Computes `path_starts_with`.
pub fn starts_with_path(path: &[char], base: &[char]) -> (r: bool)
    ensures
        r == path_starts_with(path@, base@),
{
    let pc = path_components(path);
    let bc = path_components(base);
    let ghost pv = component_views(pc@);
    let ghost bv = component_views(bc@);
    if bc.len() > pc.len() {
        return false;
    }
    let mut i: usize = 0;
    while i < bc.len()
        invariant
            i <= bc.len() <= pc.len(),
            pv == component_views(pc@),
            bv == component_views(bc@),
            pv == components(path@),
            bv == components(base@),
            pv.take(i as int) == bv.take(i as int),
        decreases bc.len() - i,
    {
        assert(pv[i as int] == pc@[i as int]@);
        assert(bv[i as int] == bc@[i as int]@);
        if !component_eq(&pc[i], &bc[i]) {
            assert(pv[i as int] != bv[i as int]);
            assert(pv.take(bc.len() as int)[i as int] == pv[i as int]);
            assert(pv.take(bc.len() as int) != bv);
            return false;
        }
        assert(pv.take(i + 1) =~= pv.take(i as int).push(pv[i as int]));
        assert(bv.take(i + 1) =~= bv.take(i as int).push(bv[i as int]));
        i = i + 1;
    }
    assert(bv.take(bc.len() as int) =~= bv);
    true
}

/// Whether two components are the same.
fn component_eq(a: &Component, b: &Component) -> (r: bool)
    ensures
        r == (a@ == b@),
{
    match (a, b) {
        (Component::RootDir, Component::RootDir) => true,
        (Component::CurDir, Component::CurDir) => true,
        (Component::ParentDir, Component::ParentDir) => true,
        (Component::Normal(x), Component::Normal(y)) => crate::text::chars_eq(x, y),
        _ => false,
    }
}

/// The number of components of a path.
pub fn component_count(s: &[char]) -> (r: usize)
    ensures
        r == components(s@).len(),
{
    let c = path_components(s);
    c.len()
}

} // verus!
