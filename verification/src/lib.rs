//! A region quadtree over an integer lattice: points are inserted into a
//! bounded plane and axis-aligned rectangular range queries are answered.

pub mod geometry;
pub mod laws;
pub mod model;
mod random;
pub mod seqs;
pub mod tree;
pub mod world;

pub use geometry::{Point, Quadrant, Region};
pub use model::{NodeView, Shape, CAPACITY, MAX_DEPTH};
pub use tree::QuadTree;
pub use world::{
    click_add_points, create_points, draw_quadtree, mouse_movement, place_sample, quadtree_search,
    quadtree_system, InitialBoundary, Points, QuadTreeResource, SearchBounds, INITIAL_POINTS,
    SEARCH_HALF_SIZE,
};
