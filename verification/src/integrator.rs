//! The decision core of the recursive radiance estimator.
//!
//! The estimator's quantities — emitted light, attenuation, density values —
//! are floating-point and live with the renderer. What is decided here, and
//! what the renderer's loop follows step for step, is the control of the
//! recursion: when a path is answered by the ambient model, when it stops
//! with the emitted light alone, and how a scattered path is continued.

use vstd::prelude::*;

verus! {

/// The recursion depth at which a path stops collecting scattered light.
pub const MAX_DEPTH: u32 = 50;

/// What the estimator does with a path at one bounce.
#[derive(Clone, Copy, Debug, PartialEq, Eq, Structural)]
pub enum RadianceStep {
    /// The ray left the scene: answer with the ambient model.
    Ambient,
    /// Return the emitted light alone: the path is exhausted or the
    /// material does not scatter.
    EmittedOnly,
    /// A delta interaction: trace the specular ray and weight by the
    /// attenuation, with no density bookkeeping.
    Specular,
    /// A diffuse interaction: sample the even mixture of the importance
    /// set's density and the material's own, and weight the recursion by
    /// the scattering density over the mixture density.
    MixtureSample,
}

/// Decides one bounce of the estimator: a miss is ambient; a hit past the
/// depth limit, or one whose material does not scatter, keeps only its
/// emitted light; a scattering hit continues along its specular ray or by
/// a mixture sample.
pub fn radiance_step(hit: bool, depth: u32, scattered: bool, specular: bool) -> (r: RadianceStep)
    ensures
        !hit ==> r == RadianceStep::Ambient,
        hit && depth >= MAX_DEPTH ==> r == RadianceStep::EmittedOnly,
        hit && depth < MAX_DEPTH && !scattered ==> r == RadianceStep::EmittedOnly,
        hit && depth < MAX_DEPTH && scattered && specular ==> r == RadianceStep::Specular,
        hit && depth < MAX_DEPTH && scattered && !specular ==> r == RadianceStep::MixtureSample,
{
    if !hit {
        RadianceStep::Ambient
    } else if depth >= MAX_DEPTH || !scattered {
        RadianceStep::EmittedOnly
    } else if specular {
        RadianceStep::Specular
    } else {
        RadianceStep::MixtureSample
    }
}

} // verus!
