use vstd::prelude::*;

use crate::cellular_automaton::{cellular_automaton, evolve, is_stable, lemma_evolve_shape};
use crate::extract_highlights::{extract_highlights, extracted, is_kept};
use crate::gray_image::GrayImage;
use crate::heat_map::{heat_map, heat_max_of, heat_mean_of, overlap_map, CELL_SIZE};
use crate::helpers::{grid_view, nonzero_map};
use crate::point::Point;
use crate::visual_object::VisualObject;

verus! {

/// The `n`-th generation of the automaton run on the heat map of `edges`, with
/// the heat map's largest and mean heat.
pub open spec fn heat_generation(edges: &GrayImage, n: nat) -> Seq<Seq<u32>> {
    let h = overlap_map(edges);
    evolve(h, heat_max_of(h) as u32, heat_mean_of(h) as u32, n)
}

/// Runs the stages after edge detection: the heat map, the automaton that
/// settles it, and the extraction of highlights from the settled map. Every
/// returned object is one that the extractor keeps, and the objects are exactly
/// what extraction from the first stable generation's map emits.
pub fn find_highlight_objects(edges: &GrayImage) -> (r: Vec<VisualObject>)
    requires
        edges.wf(),
        edges.width % CELL_SIZE == 0,
        edges.height % CELL_SIZE == 0,
    ensures
        forall|i: int| 0 <= i < r@.len() ==> is_kept(#[trigger] r@[i]),
        exists|n: nat|
            {
                &&& is_stable(#[trigger] heat_generation(edges, n), heat_max_of(overlap_map(edges)) as u32)
                &&& forall|m: nat|
                    m < n ==> !is_stable(#[trigger] heat_generation(edges, m), heat_max_of(overlap_map(edges)) as u32)
                &&& extracted(
                    nonzero_map(heat_generation(edges, n)),
                    Point { x: 0, y: 0 },
                    r@,
                    (edges.height / 5 + 1) as nat,
                )
            },
{
    let (heat, heat_max, heat_mean) = heat_map(edges);
    let ghost h = grid_view(&heat);
    let point_map = cellular_automaton(heat, heat_max, heat_mean);
    proof {
        let n = choose|n: nat|
            {
                &&& is_stable(
                    #[trigger] evolve(h, heat_max, heat_mean, n),
                    heat_max,
                )
                &&& grid_view(&point_map) == nonzero_map(
                    evolve(h, heat_max, heat_mean, n),
                )
                &&& forall|m: nat|
                    m < n ==> !is_stable(
                        #[trigger] evolve(h, heat_max, heat_mean, m),
                        heat_max,
                    )
            };
        lemma_evolve_shape(h, heat_max, heat_mean, n);
        let g = grid_view(&point_map);
        assert(g.len() == h.len());
        assert forall|y: int| 0 <= y < g.len() implies (#[trigger] g[y]).len() == h[y].len() by {
            assert(g[y].len() == evolve(h, heat_max, heat_mean, n)[y].len());
        }
    }
    let ghost settled = grid_view(&point_map);
    let mut objects: Vec<VisualObject> = Vec::new();
    extract_highlights(point_map, Point::new(0, 0), &mut objects);
    proof {
        let n = choose|n: nat|
            {
                &&& is_stable(#[trigger] evolve(h, heat_max, heat_mean, n), heat_max)
                &&& settled == nonzero_map(evolve(h, heat_max, heat_mean, n))
                &&& forall|m: nat| m < n ==> !is_stable(#[trigger] evolve(h, heat_max, heat_mean, m), heat_max)
            };
        assert(heat_generation(edges, n) == evolve(h, heat_max, heat_mean, n));
        assert forall|m: nat| m < n implies !is_stable(
            #[trigger] heat_generation(edges, m),
            heat_max_of(overlap_map(edges)) as u32,
        ) by {
            assert(heat_generation(edges, m) == evolve(h, heat_max, heat_mean, m));
        }
        assert(objects@.skip(0) =~= objects@);
        assert(settled.len() == h.len());
        assert(h.len() == edges.height / 5);
        assert(extracted(settled, Point { x: 0, y: 0 }, objects@.skip(0), (edges.height / 5 + 1) as nat));
    }
    objects
}

} // verus!
