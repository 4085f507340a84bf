use forkpool::dummy::{dummy_init, dummy_work, DummyIn};
use forkpool::lok::{lok_init, lok_work, LokInput};
use forkpool::pdfium::{heavy_init, heavy_work, HeavyIn};
use std::cell::RefCell;
use std::path::PathBuf;

#[test]
fn doubling() {
    assert_eq!(heavy_work(&(), HeavyIn(21)).unwrap().0, 42);
    assert_eq!(heavy_work(&(), HeavyIn(u32::MAX / 2)).unwrap().0, u32::MAX - 1);
    assert_eq!(dummy_work(&(), DummyIn(0)).unwrap().0, 0);
    assert_eq!(dummy_work(&(), DummyIn(7)).unwrap().0, 14);
}

#[test]
fn inputs_are_cloned_as_they_are() {
    assert_eq!(HeavyIn(5).clone().0, 5);
    assert_eq!(DummyIn(6).clone().0, 6);
    let copy = conversion().clone();
    assert_eq!(copy.input, PathBuf::from("/tmp/in.txt"));
    assert_eq!(copy.output, PathBuf::from("/tmp/out.pdf"));
    assert_eq!(copy.format, "pdf");
}

#[test]
fn loading_the_library() {
    assert!(dummy_init().is_ok());
    assert!(heavy_init(true).is_ok());
    assert_eq!(heavy_init(false).unwrap_err(), "dlopen failed");
}

#[test]
fn finding_the_office_suite() {
    let missing: Result<u8, String> = lok_init(None::<PathBuf>, |_: &PathBuf| Ok(1));
    assert_eq!(missing.unwrap_err(), "LibreOffice not found");
    let opened = lok_init(Some(20), |path: &i32| Ok(*path + 1));
    assert_eq!(opened.unwrap(), 21);
    let broken: Result<u8, String> = lok_init(Some(20), |_: &i32| Err("will not open".to_string()));
    assert_eq!(broken.unwrap_err(), "will not open");
}

fn conversion() -> LokInput {
    LokInput {
        input: PathBuf::from("/tmp/in.txt"),
        output: PathBuf::from("/tmp/out.pdf"),
        format: "pdf".to_string(),
    }
}

/// Runs a conversion in which the step with the given number fails; tells what was done.
fn convert(failing: usize, saved: bool) -> (Result<(), String>, Vec<String>) {
    let done: RefCell<Vec<String>> = RefCell::new(vec![]);
    let step = |what: String| -> Result<String, String> {
        done.borrow_mut().push(what.clone());
        if done.borrow().len() == failing {
            Err(format!("cannot {what}"))
        } else {
            Ok(what)
        }
    };
    let res = lok_work(
        conversion(),
        |path: &PathBuf| step(format!("locate {}", path.display())),
        |from: &String| step(format!("load [{from}]")),
        |document: String, to: &String, format: &String| {
            step(format!("save {document} to [{to}] as {format}")).map(|_| saved)
        },
    );
    (res.map(|_| ()), done.into_inner())
}

#[test]
fn a_conversion_goes_step_by_step() {
    let (res, done) = convert(0, true);
    assert!(res.is_ok());
    assert_eq!(
        done,
        vec![
            "locate /tmp/in.txt",
            "locate /tmp/out.pdf",
            "load [locate /tmp/in.txt]",
            "save load [locate /tmp/in.txt] to [locate /tmp/out.pdf] as pdf",
        ]
    );
}

#[test]
fn a_conversion_ends_at_the_first_failure() {
    for failing in 1..=4 {
        let (res, done) = convert(failing, true);
        assert_eq!(done.len(), failing);
        assert_eq!(res.unwrap_err(), format!("cannot {}", done[failing - 1]));
    }
}

#[test]
fn what_saving_returned_does_not_matter() {
    let (res, _) = convert(0, false);
    assert!(res.is_ok());
}
