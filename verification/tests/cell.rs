use owned_cell::cell::OwnedCell;
use owned_cell::hook::S;

#[test]
fn minimal_payload_has_one_value() {
    assert_eq!(S::new(), S);
}

#[test]
fn constructed_cell_lends_its_payload() {
    let cell = OwnedCell::construct(S::new());
    assert_eq!(cell.payload(), &S);
}

#[test]
fn construction_runs_no_hook() {
    let mut out: Vec<String> = Vec::new();
    let cell = OwnedCell::construct(S::new());
    assert_eq!(cell.payload(), &S);
    assert!(out.is_empty());
    cell.release(&mut out);
    assert_eq!(out.len(), 1);
}

#[test]
fn release_runs_the_hook_once() {
    let mut out: Vec<String> = Vec::new();
    let cell = OwnedCell::construct(S::new());
    cell.release(&mut out);
    assert_eq!(out, vec!["splat!".to_string()]);
}

#[test]
fn release_appends_after_what_was_reported_before() {
    let mut out: Vec<String> = vec!["earlier".to_string()];
    let cell = OwnedCell::construct(S::new());
    cell.release(&mut out);
    assert_eq!(out, vec!["earlier".to_string(), "splat!".to_string()]);
}

#[test]
fn cells_are_released_independently() {
    let mut out: Vec<String> = Vec::new();
    let first = OwnedCell::construct(S::new());
    let second = OwnedCell::construct(S::new());
    first.release(&mut out);
    assert_eq!(out.len(), 1);
    assert_eq!(second.payload(), &S);
    second.release(&mut out);
    assert_eq!(out, vec!["splat!".to_string(), "splat!".to_string()]);
}
