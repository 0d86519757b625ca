//! Detection of visually prominent objects ("highlights") in bright images.
//!
//! The pipeline: a polarity clamp and an edge merge over grayscale images, an
//! overlapping-cell heat map of edge density, a cellular automaton that settles
//! every cell to dead or alive, flood-fill extraction of connected components with
//! recursive peeling of oversized ones, and the mapping of each component back to
//! a crop rectangle of the input image.
pub mod cellular_automaton;
pub mod conf;
pub mod cut_highlights_from_image;
pub mod extract_highlights;
pub mod find_edges;
pub mod gray_image;
pub mod heat_map;
pub mod helpers;
pub mod identify;
pub mod point;
pub mod point_map;
pub mod routes;
pub mod visual_object;
