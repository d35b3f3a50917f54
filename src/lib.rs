//! Groth16 proof aggregation: the TIPP/MIPP prover over BLS12-381, with
//! contracts over a model of the scalar field and of the curve groups.

pub mod field;
pub mod group;
pub mod commit;
pub mod transcript;
pub mod poly;
pub mod error;
pub mod pow2;
pub mod gipa;
pub mod kzg;
pub mod prove;
pub mod locks;
pub mod wire;
