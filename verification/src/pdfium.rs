//! A job whose worker first loads a shared library.
use vstd::prelude::*;
use vstd::string::*;

verus! {

/// The number to double.
pub struct HeavyIn(pub u32);

impl Clone for HeavyIn {
    fn clone(&self) -> (copy: Self)
        ensures
            copy == *self,
    {
        HeavyIn(self.0)
    }
}

/// The doubled number.
pub struct HeavyOut(pub u32);

/// Sets up a worker; `loaded` says whether the shared library was found.
pub fn heavy_init(loaded: bool) -> (res: Result<(), String>)
    ensures
        res is Ok <==> loaded,
        res matches Err(e) ==> e@ == "dlopen failed"@,
{
    if !loaded {
        return Err(String::from_str("dlopen failed"));
    }
    Ok(())
}

/// Doubles a number that leaves room for it.
pub fn heavy_work(_ctx: &(), input: HeavyIn) -> (res: Result<HeavyOut, String>)
    requires
        input.0 * 2 <= u32::MAX,
    ensures
        res == Ok::<HeavyOut, String>(HeavyOut((input.0 * 2) as u32)),
{
    Ok(HeavyOut(input.0 * 2))
}

// ---- What holds of the calls ----

/// Setting up succeeds exactly when the library was loaded; a number that leaves room for it comes
/// back as its own sum with itself; and a copy of a number is that number.
pub proof fn law_heavy_doubles(
    ctx: (),
    loaded: bool,
    input: HeavyIn,
    copy: HeavyIn,
    set_up: Result<(), String>,
    res: Result<HeavyOut, String>,
)
    ensures
        call_requires(heavy_init, (loaded,)),
        call_ensures(heavy_init, (loaded,), set_up) ==> {
            &&& loaded ==> set_up is Ok
            &&& !loaded ==> (set_up matches Err(e) && e@ == "dlopen failed"@)
        },
        input.0 + input.0 <= u32::MAX ==> call_requires(heavy_work, (&ctx, input)),
        input.0 + input.0 <= u32::MAX && call_ensures(heavy_work, (&ctx, input), res) ==> (res
            matches Ok(output) && output.0 == input.0 + input.0),
        cloned(input, copy) ==> copy.0 == input.0,
{
}

} // verus!
