//! Splat data pipeline for a Gaussian-splat viewer: decoding of point-cloud
//! encodings into a packed store, the derived texture layout, and the
//! view-dependent draw order.
//!
//! Every single-precision quantity is carried as its IEEE-754 bit pattern in
//! a `u32`. The library moves, orders, converts and lays out such values; the
//! arithmetic on the numbers themselves (exponentials, products, square
//! roots) is the caller's, who hands its results in as bit patterns and
//! integer keys.
//!
//! - [`ply`], [`splat`], [`word`]: the header-and-body format and its records;
//! - [`importance`], [`scene`]: the store, its load-time order and its texture;
//! - [`half`]: half-precision packing for the texture;
//! - [`depth`], [`counting`], [`sorter`]: the draw order and when it is due;
//! - [`spz`], [`stream`], [`format`]: the decode service, streamed input and
//!   the choice of decoder;
//! - [`label`], [`mesh`]: what the viewer shows beside the splats;
//! - [`permutation`], [`error`]: shared notions.

pub mod counting;
pub mod depth;
pub mod error;
pub mod format;
pub mod half;
pub mod importance;
pub mod label;
pub mod mesh;
pub mod permutation;
pub mod ply;
pub mod scene;
pub mod sorter;
pub mod splat;
pub mod spz;
pub mod stream;
pub mod word;
