//! The graph view's texts and neighbourhoods.

use vstd::prelude::*;

verus! {

/// The other endpoints of the edges touching `node`, edge by edge (the
/// source before the target).
pub open spec fn edges_from_spec(edges: Seq<(u16, u16)>, node: usize) -> Seq<u16>
    decreases edges.len(),
{
    if edges.len() == 0 {
        Seq::empty()
    } else {
        let prev = edges_from_spec(edges.drop_last(), node);
        let (a, b) = edges.last();
        if a as usize == node || b as usize == node {
            let with_a = if a as usize != node { prev.push(a) } else { prev };
            if b as usize != node { with_a.push(b) } else { with_a }
        } else {
            prev
        }
    }
}

/// The neighbours of `node` along `edges`.
pub fn edges_from(edges: &[(u16, u16)], node: usize) -> (r: Vec<u16>)
    ensures
        r@ == edges_from_spec(edges@, node),
{
    let mut r: Vec<u16> = Vec::new();
    let mut i: usize = 0;
    while i < edges.len()
        invariant
            i <= edges.len(),
            r@ == edges_from_spec(edges@.take(i as int), node),
        decreases edges.len() - i,
    {
        let (a, b) = edges[i];
        assert(edges@.take(i + 1).drop_last() == edges@.take(i as int));
        assert(edges@.take(i + 1).last() == edges@[i as int]);
        if a as usize == node || b as usize == node {
            if a as usize != node {
                r.push(a);
            }
            if b as usize != node {
                r.push(b);
            }
        }
        i += 1;
    }
    assert(edges@.take(edges.len() as int) == edges@);
    r
}

/// Which node labels are drawn on a canvas `width` columns wide: 2 for the
/// selected node and its neighbours, 1 for the selected node only, 0 for
/// the narrowest canvases (the selected node only as well).
pub fn label_mode(width: u16) -> (m: u8)
    ensures
        m == (if width >= 140 { 2u8 } else if width >= 100 { 1u8 } else { 0u8 }),
{
    if width >= 140 {
        2
    } else if width >= 100 {
        1
    } else {
        0
    }
}

/// Whether node `i` gets a label: the selected node always, its
/// neighbours too in label mode 2.
pub fn shows_label(mode: u8, is_selected: bool, is_neighbor: bool) -> (b: bool)
    ensures
        b == (if mode == 2 { is_selected || is_neighbor } else { is_selected }),
{
    let show = if mode == 2 { is_selected || is_neighbor } else { is_selected };
    show || (mode == 0 && is_selected)
}

} // verus!
