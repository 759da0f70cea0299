//! Polynomials on the circle: domains, evaluation, and the circle FFT.

pub mod barycentric;
pub mod circle_poly;
pub mod disjoint;
pub mod domain;
pub mod eval;
pub mod extension;
pub mod fft;
pub mod fold;
pub mod ifft;
pub mod lagrange;
pub mod lifted;
pub mod pool;
pub mod sized;
pub mod twiddles;
pub mod unique;
