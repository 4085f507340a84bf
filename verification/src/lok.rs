//! A job that has an office suite convert a document.
use std::path::PathBuf;
use vstd::prelude::*;
use vstd::string::*;

verus! {

/// `std::path::PathBuf`, the path of a file. It is only passed on.
#[verifier::external_type_specification]
#[verifier::external_body]
pub struct ExPathBuf(PathBuf);

/// `PathBuf::clone` gives the same path again.
pub assume_specification[ <PathBuf as Clone>::clone ](path: &PathBuf) -> (copy: PathBuf)
    ensures
        copy == *path,
;

/// A document to convert: where it is, where the outcome goes, and in which format.
pub struct LokInput {
    pub input: PathBuf,
    pub output: PathBuf,
    pub format: String,
}

impl Clone for LokInput {
    fn clone(&self) -> (copy: Self)
        ensures
            copy == *self,
    {
        LokInput {
            input: self.input.clone(),
            output: self.output.clone(),
            format: self.format.clone(),
        }
    }
}

/// The document was converted.
pub struct LokOutput;

/// Sets up a worker: opens the office suite that was found. `open` reports in words what
/// went wrong.
pub fn lok_init<P, C, F: FnOnce(&P) -> Result<C, String>>(found: Option<P>, open: F) -> (res:
    Result<C, String>)
    requires
        found matches Some(path) ==> call_requires(open, (&path,)),
    ensures
        match found {
            None => res matches Err(e) && e@ == "LibreOffice not found"@,
            Some(path) => call_ensures(open, (&path,), res),
        },
{
    match found {
        None => Err(String::from_str("LibreOffice not found")),
        Some(path) => open(&path),
    }
}

/// Converts a document: turns both paths into locations, loads the document, and saves it in
/// the wanted format. Whatever fails first ends the job with its error, and no later step is
/// made: nothing is loaded unless both paths were located, and nothing is saved unless the
/// document was loaded. That saving went without an error is enough; what it returned beyond
/// that is not looked at.
pub fn lok_work<
    U,
    D,
    E,
    Locate: Fn(&PathBuf) -> Result<U, E>,
    Load: FnOnce(&U) -> Result<D, E>,
    Save: FnOnce(D, &U, &String) -> Result<bool, E>,
>(input: LokInput, locate: Locate, load: Load, save: Save) -> (res: Result<LokOutput, E>)
    requires
        call_requires(locate, (&input.input,)),
        forall|from: U| #[trigger]
            call_ensures(locate, (&input.input,), Ok::<U, E>(from)) ==> call_requires(
                locate,
                (&input.output,),
            ),
        forall|from: U, to: U| #[trigger]
            call_ensures(locate, (&input.input,), Ok::<U, E>(from)) && #[trigger] call_ensures(
                locate,
                (&input.output,),
                Ok::<U, E>(to),
            ) ==> call_requires(load, (&from,)),
        forall|from: U, to: U, document: D| #[trigger]
            call_ensures(locate, (&input.input,), Ok::<U, E>(from)) && #[trigger] call_ensures(
                locate,
                (&input.output,),
                Ok::<U, E>(to),
            ) && #[trigger] call_ensures(load, (&from,), Ok::<D, E>(document)) ==> call_requires(
                save,
                (document, &to, &input.format),
            ),
    ensures
        exists|from: Result<U, E>| #[trigger]
            call_ensures(locate, (&input.input,), from) && match from {
                Err(e) => res == Err::<LokOutput, E>(e),
                Ok(from) => exists|to: Result<U, E>| #[trigger]
                    call_ensures(locate, (&input.output,), to) && match to {
                        Err(e) => res == Err::<LokOutput, E>(e),
                        Ok(to) => exists|document: Result<D, E>| #[trigger]
                            call_ensures(load, (&from,), document) && match document {
                                Err(e) => res == Err::<LokOutput, E>(e),
                                Ok(document) => exists|saved: Result<bool, E>| #[trigger]
                                    call_ensures(save, (document, &to, &input.format), saved)
                                        && match saved {
                                        Err(e) => res == Err::<LokOutput, E>(e),
                                        Ok(_) => res == Ok::<LokOutput, E>(LokOutput),
                                    },
                            },
                    },
            },
{
    let from: U = match locate(&input.input) {
        Ok(from) => from,
        Err(e) => {
            return Err(e);
        },
    };
    let to: U = match locate(&input.output) {
        Ok(to) => to,
        Err(e) => {
            return Err(e);
        },
    };
    let document: D = match load(&from) {
        Ok(document) => document,
        Err(e) => {
            return Err(e);
        },
    };
    match save(document, &to, &input.format) {
        Ok(_) => Ok(LokOutput),
        Err(e) => Err(e),
    }
}

// ---- What holds of the calls ----

/// A copy of a job is that job.
pub proof fn law_conversion_copies_are_equal(job: LokInput, copy: LokInput)
    ensures
        cloned(job, copy) ==> copy.input == job.input && copy.output == job.output && copy.format
            == job.format,
{
}

/// Setting up opens the suite that was found, and only that, and succeeds or fails as opening it
/// does; where none was found it fails and says so.
pub proof fn law_suite_that_was_found_is_opened<P, C, F: FnOnce(&P) -> Result<C, String>>(
    found: Option<P>,
    open: F,
    res: Result<C, String>,
)
    ensures
        (found matches Some(path) ==> call_requires(open, (&path,))) ==> call_requires(
            lok_init::<P, C, F>,
            (found, open),
        ),
        call_ensures(lok_init::<P, C, F>, (found, open), res) ==> {
            &&& found matches Some(path) ==> call_ensures(open, (&path,), res)
            &&& found is None ==> (res matches Err(e) && e@ == "LibreOffice not found"@)
        },
{
}

/// A conversion succeeds only if both paths were located, the document at the first was loaded, and
/// that document was saved at the second, in the wanted format. It fails only with the error of one
/// of these four steps, all steps before which succeeded.
pub proof fn law_conversion_makes_every_step<
    U,
    D,
    E,
    Locate: Fn(&PathBuf) -> Result<U, E>,
    Load: FnOnce(&U) -> Result<D, E>,
    Save: FnOnce(D, &U, &String) -> Result<bool, E>,
>(input: LokInput, locate: Locate, load: Load, save: Save, res: Result<LokOutput, E>)
    requires
        call_ensures(
            lok_work::<U, D, E, Locate, Load, Save>,
            (input, locate, load, save),
            res,
        ),
    ensures
        res is Ok ==> exists|
            from: Result<U, E>,
            to: Result<U, E>,
            document: Result<D, E>,
            saved: Result<bool, E>,
        | #[trigger]
            call_ensures(locate, (&input.input,), from) && from is Ok && #[trigger] call_ensures(
                locate,
                (&input.output,),
                to,
            ) && to is Ok && #[trigger] call_ensures(load, (&from->Ok_0,), document) && document
                is Ok && #[trigger] call_ensures(
                save,
                (document->Ok_0, &to->Ok_0, &input.format),
                saved,
            ) && saved is Ok,
        res matches Err(e) ==> {
            ||| exists|from: Result<U, E>| #[trigger]
                call_ensures(locate, (&input.input,), from) && from == Err::<U, E>(e)
            ||| exists|from: Result<U, E>, to: Result<U, E>| #[trigger]
                call_ensures(locate, (&input.input,), from) && from is Ok
                    && #[trigger] call_ensures(locate, (&input.output,), to) && to == Err::<U, E>(e)
            ||| exists|from: Result<U, E>, to: Result<U, E>, document: Result<D, E>| #[trigger]
                call_ensures(locate, (&input.input,), from) && from is Ok
                    && #[trigger] call_ensures(locate, (&input.output,), to) && to is Ok
                    && #[trigger] call_ensures(load, (&from->Ok_0,), document) && document == Err::<
                    D,
                    E,
                >(e)
            ||| exists|
                from: Result<U, E>,
                to: Result<U, E>,
                document: Result<D, E>,
                saved: Result<bool, E>,
            | #[trigger]
                call_ensures(locate, (&input.input,), from) && from is Ok
                    && #[trigger] call_ensures(locate, (&input.output,), to) && to is Ok
                    && #[trigger] call_ensures(load, (&from->Ok_0,), document) && document is Ok
                    && #[trigger] call_ensures(
                    save,
                    (document->Ok_0, &to->Ok_0, &input.format),
                    saved,
                ) && saved == Err::<bool, E>(e)
        },
{
}

/// Any conversion can be made with steps that can always be made.
pub proof fn law_any_conversion_can_be_made<
    U,
    D,
    E,
    Locate: Fn(&PathBuf) -> Result<U, E>,
    Load: FnOnce(&U) -> Result<D, E>,
    Save: FnOnce(D, &U, &String) -> Result<bool, E>,
>(input: LokInput, locate: Locate, load: Load, save: Save)
    requires
        forall|path: &PathBuf| #[trigger] call_requires(locate, (path,)),
        forall|from: &U| #[trigger] call_requires(load, (from,)),
        forall|document: D, to: &U, format: &String| #[trigger]
            call_requires(save, (document, to, format)),
    ensures
        call_requires(lok_work::<U, D, E, Locate, Load, Save>, (input, locate, load, save)),
{
}

} // verus!
