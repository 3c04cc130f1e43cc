//! The decisions of a light path: when it stops, what it shows when it
//! stops, and when a surface absorbs it instead of scattering it.

use vstd::prelude::*;

verus! {

/// The kinds of surface a ray can meet.
#[derive(Clone, Copy, Debug, PartialEq, Eq, Structural)]
pub enum Surface {
    /// Diffuse: scatters around the normal.
    Lambertian,
    /// Mirror-like: reflects, with optional fuzz.
    Metal,
    /// Glass-like: reflects or refracts.
    Dielectric,
}

/// What the scene and the surface it met made of one ray.
#[derive(Clone, Copy, Debug, PartialEq, Eq, Structural)]
pub enum Outcome {
    /// The ray met nothing in the scene.
    Missed,
    /// The ray met a surface that absorbed it.
    Absorbed,
    /// The ray met a surface that sent a new ray on.
    Scattered,
}

/// Where a path goes after one ray.
#[derive(Clone, Copy, Debug, PartialEq, Eq, Structural)]
pub enum Step {
    /// The path ends and contributes no light.
    Black,
    /// The path ends in the sky gradient of its last ray.
    Sky,
    /// The scattered ray is traced with this many bounces left, and its
    /// colour is scaled by the surface's attenuation.
    Bounce(i32),
}

/// Whether a ray with `depth` bounces left is traced at all. Where it is
/// not, the path ends in black before the scene is asked, whatever the
/// scene holds.
pub fn should_trace(depth: i32) -> (r: bool)
    ensures
        r == (depth > 0),
{
    depth > 0
}

/// The step after a ray that was traced with `depth` bounces left.
pub fn next_step(depth: i32, outcome: Outcome) -> (r: Step)
    requires
        depth > 0,
    ensures
        r == match outcome {
            Outcome::Missed => Step::Sky,
            Outcome::Absorbed => Step::Black,
            Outcome::Scattered => Step::Bounce((depth - 1) as i32),
        },
{
    match outcome {
        Outcome::Missed => Step::Sky,
        Outcome::Absorbed => Step::Black,
        Outcome::Scattered => Step::Bounce(depth - 1),
    }
}

/// What a surface does with a ray that hit it. `leaves_surface` tells
/// whether the direction a metal reflects into points out of the surface
/// (its dot product with the normal is positive); only metal reads it.
/// Diffuse and glass surfaces always scatter.
pub fn scatter_outcome(surface: Surface, leaves_surface: bool) -> (r: Outcome)
    ensures
        r == (if surface == Surface::Metal && !leaves_surface {
            Outcome::Absorbed
        } else {
            Outcome::Scattered
        }),
{
    match surface {
        Surface::Metal => if leaves_surface {
            Outcome::Scattered
        } else {
            Outcome::Absorbed
        },
        _ => Outcome::Scattered,
    }
}

/// Whether glass reflects rather than refracts: always where refraction is
/// impossible (total internal reflection), else where the reflectance beat
/// the uniform draw.
pub fn dielectric_reflects(cannot_refract: bool, reflectance_beats_draw: bool) -> (r: bool)
    ensures
        r == (cannot_refract || reflectance_beats_draw),
        cannot_refract ==> r,
{
    cannot_refract || reflectance_beats_draw
}


/// How a path that starts with `depth` bounces left ends, following
/// `should_trace` and `next_step`, where `outcomes` lists what the scene
/// makes of its rays in turn: `Black` or `Sky`, or none where the list runs
/// out before the path ends.
pub open spec fn path_end(depth: int, outcomes: Seq<Outcome>) -> Option<Step>
    decreases outcomes.len(),
{
    if depth <= 0 {
        Some(Step::Black)
    } else if outcomes.len() == 0 {
        None
    } else {
        match outcomes[0] {
            Outcome::Missed => Some(Step::Sky),
            Outcome::Absorbed => Some(Step::Black),
            Outcome::Scattered => path_end(depth - 1, outcomes.drop_first()),
        }
    }
}

/// A path whose budget is spent ends in black, whatever the scene would
/// make of its rays.
pub proof fn lemma_spent_budget_is_black(depth: int, outcomes: Seq<Outcome>)
    requires
        depth <= 0,
    ensures
        path_end(depth, outcomes) == Some(Step::Black),
{
}

/// A path ends after at most `depth` rays: given that many outcomes it has
/// ended, in black or in the sky.
pub proof fn lemma_path_ends_within_budget(depth: int, outcomes: Seq<Outcome>)
    requires
        outcomes.len() >= depth,
    ensures
        path_end(depth, outcomes) == Some(Step::Black) || path_end(depth, outcomes) == Some(
            Step::Sky,
        ),
    decreases outcomes.len(),
{
    if depth > 0 && outcomes.len() > 0 && outcomes[0] == Outcome::Scattered {
        lemma_path_ends_within_budget(depth - 1, outcomes.drop_first());
    }
}

} // verus!
