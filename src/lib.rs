//! Bit-level codecs for configuration fuse maps.
//!
//! A pattern codec maps a closed set of variants to fixed-width bit strings
//! (`pattern`, `bitpattern`); a fragment codec places the bits of several
//! pattern-valued fields onto an N-dimensional grid of fuses, at an offset
//! and with optional mirroring (`coord`, `grid`, `fragment`). Layouts are
//! tables: `layout` builds them from bits declared by name, from arrays of
//! patterns and from nested layouts. `docs` renders a pattern's variant
//! table as text, and `mc` describes the macrocell of a CPLD family with
//! these codecs.

pub mod bitpattern;
pub mod coord;
pub mod docs;
pub mod error;
pub mod fragment;
pub mod grid;
pub mod layout;
pub mod mc;
pub mod pattern;
