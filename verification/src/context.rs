//! Per-node layout facts, computed top-down before rendering: the
//! width available to a component, its index among its rendered
//! siblings, and how many siblings do not occupy layout space.

use vstd::prelude::*;
use crate::size::spec_divide;
use crate::size::Size;

verus! {

/// Layout facts a parent assigns to each child; immutable once given.
#[derive(Clone, Copy, Debug)]
pub struct Context {
    /// Width available to the component, when the parent knows one.
    pub width: Option<Size>,
    /// How many siblings the component has, itself counted.
    pub siblings: usize,
    /// How many of them do not occupy layout space.
    pub raw_siblings: usize,
    /// The component's position among its siblings.
    pub index: usize,
}

impl Context {
    pub fn new(width: Option<Size>, siblings: usize, raw_siblings: usize, index: usize) -> (r:
        Context)
        ensures
            r.width == width,
            r.siblings == siblings,
            r.raw_siblings == raw_siblings,
            r.index == index,
    {
        Context { width, siblings, raw_siblings, index }
    }

    /// The starting context of a document root: no known width, one
    /// sibling (the component itself), nothing raw.
    pub fn empty() -> (r: Context)
        ensures
            r.width is None,
            r.siblings == 1,
            r.raw_siblings == 0,
            r.index == 0,
    {
        Context { width: None, siblings: 1, raw_siblings: 0, index: 0 }
    }

    pub fn set_index(self, index: usize) -> (r: Context)
        ensures
            r.width == self.width,
            r.siblings == self.siblings,
            r.raw_siblings == self.raw_siblings,
            r.index == index,
    {
        Context { width: self.width, siblings: self.siblings, raw_siblings: self.raw_siblings, index }
    }

    /// The width this context's component assigns one of its children:
    /// an explicit width on the child always wins; otherwise a known
    /// available width is shared equally among the rendering siblings
    /// (the raw ones excluded).
    pub fn child_width(&self, explicit: &Option<Size>) -> (r: Option<Size>)
        requires
            self.raw_siblings <= self.siblings,
            match self.width {
                Some(w) => w.wf(),
                None => true,
            },
        ensures
            explicit is Some ==> r == *explicit,
            explicit is None && self.width is None ==> r is None,
            explicit is None && self.width is Some && self.siblings == self.raw_siblings ==> r
                is None,
            explicit is None && self.width is Some && self.siblings > self.raw_siblings ==> r
                == spec_divide(self.width.unwrap(), (self.siblings - self.raw_siblings) as u64),
    {
        compute_child_width(&self.width, explicit, self.siblings - self.raw_siblings)
    }
}

/// The width a container assigns one rendering child.
///
/// An explicit width on the child always wins.  Otherwise a container
/// of known width shares it equally among its rendering children, to a
/// thousandth.  A container of unknown width hands on no width: the
/// child falls back to its own default at render time.
pub fn compute_child_width(
    container: &Option<Size>,
    explicit: &Option<Size>,
    rendering_children: usize,
) -> (r: Option<Size>)
    requires
        match container {
            Some(w) => w.wf(),
            None => true,
        },
    ensures
        explicit is Some ==> r == *explicit,
        explicit is None && container is None ==> r is None,
        explicit is None && container is Some && rendering_children == 0 ==> r is None,
        explicit is None && container is Some && rendering_children > 0 ==> r == spec_divide(
            container.unwrap(),
            rendering_children as u64,
        ),
{
    match explicit {
        Some(w) => Some(*w),
        None => match container {
            Some(w) => {
                if rendering_children == 0 {
                    None
                } else {
                    w.divide(rendering_children as u64)
                }
            },
            None => None,
        },
    }
}

} // verus!
