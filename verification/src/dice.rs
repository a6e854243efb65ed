use rand::Rng;
use vstd::prelude::*;
use crate::team::DAMAGE_UNIT;

verus! {

/// One roll, drawn by the `rand` crate: `thread_rng` hands out the thread's
/// generator, and `Rng::gen_range` draws from the half-open range from zero
/// to [`DAMAGE_UNIT`]. Believed, not proved: the value lies in that range,
/// as `gen_range` documents. Which value it is depends on chance, so nothing
/// more is said of it. Like the generator itself, the call fails where the
/// system gives the thread no seed.
#[verifier::external_body]
fn roll() -> (out: i64)
    ensures
        0 <= out < DAMAGE_UNIT,
{
    rand::thread_rng().gen_range(0..DAMAGE_UNIT)
}

/// Draws `count` rolls for a smash, each from zero up to but not including
/// [`DAMAGE_UNIT`]. A team with no damage is safe from every one of them,
/// and a team with a whole unit of damage or more is hit by every one.
pub fn rolls(count: usize) -> (out: Vec<i64>)
    ensures
        out.len() == count,
        forall|i: int| 0 <= i < count ==> 0 <= #[trigger] out[i] < DAMAGE_UNIT,
{
    let mut out: Vec<i64> = Vec::new();
    let mut i: usize = 0;
    while i < count
        invariant
            i <= count,
            out.len() == i,
            forall|k: int| 0 <= k < i ==> 0 <= #[trigger] out[k] < DAMAGE_UNIT,
        decreases count - i,
    {
        out.push(roll());
        i += 1;
    }
    out
}

} // verus!
