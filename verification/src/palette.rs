use vstd::prelude::*;

verus! {

/// An RGB triple, one byte per channel.
#[derive(Clone, Copy, Debug, PartialEq, Eq, Structural)]
pub struct Color {
    pub r: u8,
    pub g: u8,
    pub b: u8,
}

/// Relies on rand::random (thread-local generator): one independently and
/// uniformly drawn byte.  Nothing is promised of its value.
#[verifier::external_body]
fn random_byte() -> u8 {
    rand::random()
}

/// Produce `n` colors, each channel drawn independently from the full byte
/// range.  No uniqueness or minimum-contrast guarantee is made — collisions
/// are acceptable — and two calls with the same `n` may differ; only the
/// shape is a function of `n`.
pub fn generate_random_colors(n: usize) -> (r: Vec<Color>)
    ensures
        r@.len() == n,
{
    let mut colors: Vec<Color> = Vec::new();
    let mut i: usize = 0;
    while i < n
        invariant
            i <= n,
            colors@.len() == i,
        decreases n - i,
    {
        let red = random_byte();
        let green = random_byte();
        let blue = random_byte();
        colors.push(Color { r: red, g: green, b: blue });
        i = i + 1;
    }
    colors
}

} // verus!
