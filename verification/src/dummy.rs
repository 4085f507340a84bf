//! The smallest job there is: doubling a number, with nothing to set up.
use vstd::prelude::*;

verus! {

/// The number to double.
pub struct DummyIn(pub u32);

impl Clone for DummyIn {
    fn clone(&self) -> (copy: Self)
        ensures
            copy == *self,
    {
        DummyIn(self.0)
    }
}

/// The doubled number.
pub struct DummyOut(pub u32);

/// Sets up a worker: there is nothing to do.
pub fn dummy_init() -> (res: Result<(), String>)
    ensures
        res == Ok::<(), String>(()),
{
    Ok(())
}

/// Doubles a number that leaves room for it.
pub fn dummy_work(_ctx: &(), input: DummyIn) -> (res: Result<DummyOut, String>)
    requires
        input.0 * 2 <= u32::MAX,
    ensures
        res == Ok::<DummyOut, String>(DummyOut((input.0 * 2) as u32)),
{
    Ok(DummyOut(input.0 * 2))
}

// ---- What holds of the calls ----

/// Setting up always succeeds; a number that leaves room for it comes back as its own sum with
/// itself; and a copy of a number is that number.
pub proof fn law_dummy_doubles(
    ctx: (),
    input: DummyIn,
    copy: DummyIn,
    set_up: Result<(), String>,
    res: Result<DummyOut, String>,
)
    ensures
        call_requires(dummy_init, ()),
        call_ensures(dummy_init, (), set_up) ==> set_up is Ok,
        input.0 + input.0 <= u32::MAX ==> call_requires(dummy_work, (&ctx, input)),
        input.0 + input.0 <= u32::MAX && call_ensures(dummy_work, (&ctx, input), res) ==> (res
            matches Ok(output) && output.0 == input.0 + input.0),
        cloned(input, copy) ==> copy.0 == input.0,
{
}

} // verus!
