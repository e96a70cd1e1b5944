//! Population-genetics sample registry, allele-count matrix and index of association.
pub mod text;
pub mod names;
pub mod matrix;
pub mod entities;
pub mod sample;
pub mod materialize;
pub mod statistic;
pub mod laws;
pub mod observable;

pub use entities::{Allele, AlleleCount, Group, Individual, Locus, LocusHint, Observation, Variation};
pub use materialize::{Loci, LociExt};
pub use matrix::AlleleMatrix;
pub use names::Named;
pub use observable::{CsvBuilder, Field, ObservationPartial, RecordLayout};
pub use sample::{GenomicsError, Sample};
