//! Verified core of the diagramma diagram engine.
//!
//! * [`model`]: the diagram data model and spec validation,
//! * [`layout`]: the graph-structural part of the flowchart layout
//!   (cycle removal and longest-path layering, barycenter ordering, tier rows),
//! * [`svg`]: design tokens, theme style blocks, and the markup of labels,
//!   node shapes, edges and containers at written-out coordinates.
pub mod layout;
pub mod model;
pub mod svg;
pub mod textseq;
