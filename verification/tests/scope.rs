use owned_cell::error::UsageError;
use owned_cell::hook::S;
use owned_cell::scope::Scope;

fn splats(n: usize) -> Vec<String> {
    vec!["splat!".to_string(); n]
}

#[test]
fn entered_scope_holds_nothing() {
    let scope: Scope<S> = Scope::enter();
    assert_eq!(scope.len(), 0);
    assert!(!scope.is_live(0));
    assert_eq!(scope.payload(0), Err(UsageError::Unconstructed));
}

#[test]
fn empty_scope_ends_silently() {
    let mut out: Vec<String> = Vec::new();
    let scope: Scope<S> = Scope::enter();
    assert_eq!(scope.exit(&mut out), Vec::<usize>::new());
    assert!(out.is_empty());
}

#[test]
fn cells_are_numbered_in_construction_order() {
    let mut scope = Scope::enter();
    assert_eq!(scope.construct(S::new()), 0);
    assert_eq!(scope.construct(S::new()), 1);
    assert_eq!(scope.construct(S::new()), 2);
    assert_eq!(scope.len(), 3);
    assert!(scope.is_live(0));
    assert!(scope.is_live(1));
    assert!(scope.is_live(2));
    assert!(!scope.is_live(3));
    assert_eq!(scope.payload(1), Ok(&S));
}

#[test]
fn explicit_release_then_end_reports_one_line() {
    let mut out: Vec<String> = Vec::new();
    let mut scope = Scope::enter();
    let x = scope.construct(S::new());
    assert_eq!(scope.release(x, &mut out), Ok(()));
    assert_eq!(out, splats(1));
    assert_eq!(scope.exit(&mut out), vec![0]);
    assert_eq!(out, splats(1));
}

#[test]
fn end_of_scope_releases_a_cell_left_live() {
    let mut out: Vec<String> = Vec::new();
    let mut scope = Scope::enter();
    let x = scope.construct(S::new());
    assert!(scope.is_live(x));
    assert!(out.is_empty());
    assert_eq!(scope.exit(&mut out), vec![0]);
    assert_eq!(out, splats(1));
}

#[test]
fn end_of_scope_releases_in_reverse_order_of_construction() {
    let mut out: Vec<String> = Vec::new();
    let mut scope = Scope::enter();
    for _ in 0..4 {
        scope.construct(S::new());
    }
    assert_eq!(scope.exit(&mut out), vec![3, 2, 1, 0]);
    assert_eq!(out, splats(4));
}

#[test]
fn released_cells_are_skipped_at_the_end_of_the_scope() {
    let mut out: Vec<String> = Vec::new();
    let mut scope = Scope::enter();
    for _ in 0..5 {
        scope.construct(S::new());
    }
    assert_eq!(scope.release(1, &mut out), Ok(()));
    assert_eq!(scope.release(3, &mut out), Ok(()));
    assert_eq!(out, splats(2));
    assert_eq!(scope.exit(&mut out), vec![1, 3, 4, 2, 0]);
    assert_eq!(out, splats(5));
}

#[test]
fn every_hook_runs_exactly_once_whatever_is_requested() {
    let mut out: Vec<String> = Vec::new();
    let mut scope = Scope::enter();
    let a = scope.construct(S::new());
    let b = scope.construct(S::new());
    assert_eq!(scope.release(b, &mut out), Ok(()));
    assert_eq!(scope.release(b, &mut out), Err(UsageError::UseAfterRelease));
    let c = scope.construct(S::new());
    assert_eq!(scope.release(9, &mut out), Err(UsageError::Unconstructed));
    assert_eq!(scope.release(a, &mut out), Ok(()));
    assert_eq!(scope.release(a, &mut out), Err(UsageError::UseAfterRelease));
    let d = scope.construct(S::new());
    let constructed = scope.len();
    let journal = scope.exit(&mut out);
    assert_eq!(constructed, 4);
    assert_eq!(journal, vec![b, a, d, c]);
    for id in 0..constructed {
        assert_eq!(journal.iter().filter(|&&fired| fired == id).count(), 1);
    }
    assert_eq!(journal.len(), constructed);
    assert_eq!(out, splats(4));
}

#[test]
fn release_of_a_released_cell_changes_nothing() {
    let mut out: Vec<String> = Vec::new();
    let mut scope = Scope::enter();
    let x = scope.construct(S::new());
    let y = scope.construct(S::new());
    assert_eq!(scope.release(x, &mut out), Ok(()));
    assert_eq!(scope.release(x, &mut out), Err(UsageError::UseAfterRelease));
    assert_eq!(out, splats(1));
    assert!(!scope.is_live(x));
    assert!(scope.is_live(y));
    assert_eq!(scope.len(), 2);
    assert_eq!(scope.exit(&mut out), vec![0, 1]);
    assert_eq!(out, splats(2));
}

#[test]
fn release_of_an_unknown_cell_changes_nothing() {
    let mut out: Vec<String> = Vec::new();
    let mut scope = Scope::enter();
    let x = scope.construct(S::new());
    assert_eq!(scope.release(1, &mut out), Err(UsageError::Unconstructed));
    assert_eq!(scope.release(usize::MAX, &mut out), Err(UsageError::Unconstructed));
    assert!(out.is_empty());
    assert!(scope.is_live(x));
    assert_eq!(scope.len(), 1);
}

#[test]
fn payload_is_lent_only_while_the_cell_is_live() {
    let mut out: Vec<String> = Vec::new();
    let mut scope = Scope::enter();
    let x = scope.construct(S::new());
    assert_eq!(scope.payload(x), Ok(&S));
    assert_eq!(scope.release(x, &mut out), Ok(()));
    assert_eq!(scope.payload(x), Err(UsageError::UseAfterRelease));
    assert_eq!(scope.payload(x + 1), Err(UsageError::Unconstructed));
}

#[test]
fn a_released_cell_stays_released() {
    let mut out: Vec<String> = Vec::new();
    let mut scope = Scope::enter();
    let x = scope.construct(S::new());
    assert_eq!(scope.release(x, &mut out), Ok(()));
    let y = scope.construct(S::new());
    assert_eq!(scope.release(y, &mut out), Ok(()));
    assert_eq!(scope.release(5, &mut out), Err(UsageError::Unconstructed));
    assert!(!scope.is_live(x));
    assert_eq!(scope.payload(x), Err(UsageError::UseAfterRelease));
    assert_eq!(out, splats(2));
}

#[test]
fn end_of_scope_appends_after_what_was_reported_before() {
    let mut out: Vec<String> = vec!["earlier".to_string()];
    let mut scope = Scope::enter();
    scope.construct(S::new());
    scope.construct(S::new());
    assert_eq!(scope.exit(&mut out), vec![1, 0]);
    assert_eq!(
        out,
        vec!["earlier".to_string(), "splat!".to_string(), "splat!".to_string()]
    );
}

#[test]
fn scopes_do_not_share_cells() {
    let mut out: Vec<String> = Vec::new();
    let mut outer = Scope::enter();
    let mut inner = Scope::enter();
    let a = outer.construct(S::new());
    let b = inner.construct(S::new());
    assert_eq!(a, b);
    assert_eq!(inner.release(b, &mut out), Ok(()));
    assert!(outer.is_live(a));
    assert_eq!(inner.exit(&mut out), vec![0]);
    assert_eq!(out, splats(1));
    assert_eq!(outer.exit(&mut out), vec![0]);
    assert_eq!(out, splats(2));
}
