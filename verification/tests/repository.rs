use score_panel::errors::PersistenceErrorKind;
use score_panel::repository::{
    decide_write, interpret_load, interpret_load_with_context, interpret_write,
    normalize_store_error, parse_view_id, LookupOutcome, MemoryViewRepository, StoreError,
    ViewContext, WriteOp,
};

#[test]
fn view_id_parses_numeric_text() {
    assert_eq!(parse_view_id("77"), Ok(77));
    assert_eq!(parse_view_id("0"), Ok(0));
    assert_eq!(parse_view_id("18446744073709551615"), Ok(u64::MAX));
}

#[test]
fn view_id_rejects_malformed_text() {
    assert_eq!(parse_view_id(""), Err(PersistenceErrorKind::MalformedIdentity));
    assert_eq!(parse_view_id("lobby-7"), Err(PersistenceErrorKind::MalformedIdentity));
    assert_eq!(parse_view_id("7 "), Err(PersistenceErrorKind::MalformedIdentity));
    assert_eq!(
        parse_view_id("18446744073709551616"),
        Err(PersistenceErrorKind::MalformedIdentity)
    );
}

#[test]
fn store_errors_normalize_to_kinds() {
    assert_eq!(
        normalize_store_error(StoreError::Connection),
        PersistenceErrorKind::ConnectionError
    );
    assert_eq!(
        normalize_store_error(StoreError::ConnectionAcquire),
        PersistenceErrorKind::ConnectionError
    );
    assert_eq!(normalize_store_error(StoreError::Other), PersistenceErrorKind::UnknownError);
}

#[test]
fn lookup_outcomes_interpret_for_load() {
    assert_eq!(interpret_load(LookupOutcome::Found(5u32, 2)), Ok(Some(5u32)));
    assert_eq!(interpret_load(LookupOutcome::<u32>::Missing), Ok(None));
    assert_eq!(
        interpret_load(LookupOutcome::<u32>::Failed(StoreError::Connection)),
        Err(PersistenceErrorKind::ConnectionError)
    );
}

#[test]
fn load_with_context_carries_stored_version() {
    let r = interpret_load_with_context("77", LookupOutcome::Found(5u32, 4)).unwrap().unwrap();
    assert_eq!(r.0, 5);
    assert_eq!(r.1.view_id, "77");
    assert_eq!(r.1.version, 4);
}

#[test]
fn write_outcomes_interpret_as_unknown_error() {
    assert_eq!(interpret_write(Ok(())), Ok(()));
    assert_eq!(interpret_write(Err(StoreError::Other)), Err(PersistenceErrorKind::UnknownError));
    assert_eq!(
        interpret_write(Err(StoreError::Connection)),
        Err(PersistenceErrorKind::UnknownError)
    );
}

#[test]
fn version_zero_routes_to_insert() {
    let ctx = ViewContext::new("77".to_string(), 0);
    assert_eq!(decide_write(&ctx), WriteOp::Insert);
}

#[test]
fn positive_version_routes_to_update() {
    let ctx = ViewContext::new("77".to_string(), 3);
    assert_eq!(decide_write(&ctx), WriteOp::UpdateExisting);
}

#[test]
fn load_on_nonexistent_id_returns_none() {
    let repo: MemoryViewRepository<String> = MemoryViewRepository::new();
    assert_eq!(repo.load("5"), Ok(None));
}

#[test]
fn load_with_malformed_id_fails() {
    let repo: MemoryViewRepository<String> = MemoryViewRepository::new();
    assert_eq!(repo.load("not a key"), Err(PersistenceErrorKind::MalformedIdentity));
}

#[test]
fn created_view_is_found_by_load() {
    let mut repo: MemoryViewRepository<String> = MemoryViewRepository::new();
    let ctx = ViewContext::new("5".to_string(), 0);
    repo.create_view("lobby open".to_string(), &ctx).unwrap();
    assert_eq!(repo.load("5"), Ok(Some(&"lobby open".to_string())));
    assert_eq!(repo.load("6"), Ok(None));
}

#[test]
fn duplicate_create_is_unknown_error() {
    let mut repo: MemoryViewRepository<String> = MemoryViewRepository::new();
    let ctx = ViewContext::new("5".to_string(), 0);
    repo.create_view("first".to_string(), &ctx).unwrap();
    assert_eq!(
        repo.create_view("second".to_string(), &ctx),
        Err(PersistenceErrorKind::UnknownError)
    );
    assert_eq!(repo.load("5"), Ok(Some(&"first".to_string())));
}

#[test]
fn update_view_with_version_zero_inserts() {
    let mut repo: MemoryViewRepository<String> = MemoryViewRepository::new();
    let ctx = ViewContext::new("9".to_string(), 0);
    repo.update_view("fresh".to_string(), &ctx).unwrap();
    assert_eq!(repo.load("9"), Ok(Some(&"fresh".to_string())));
    let (view, loaded_ctx) = repo.load_with_context("9").unwrap().unwrap();
    assert_eq!(*view, "fresh");
    assert_eq!(loaded_ctx.version, 1);
}

#[test]
fn update_view_with_positive_version_updates_in_place() {
    let mut repo: MemoryViewRepository<String> = MemoryViewRepository::new();
    repo.create_view("first".to_string(), &ViewContext::new("9".to_string(), 0)).unwrap();
    let (_, ctx) = {
        let (view, ctx) = repo.load_with_context("9").unwrap().unwrap();
        (view.clone(), ctx)
    };
    assert_eq!(ctx.version, 1);
    repo.update_view("second".to_string(), &ctx).unwrap();
    assert_eq!(repo.load("9"), Ok(Some(&"second".to_string())));
    let (view, ctx2) = repo.load_with_context("9").unwrap().unwrap();
    assert_eq!(*view, "second");
    assert_eq!(ctx2.version, 2);
}

#[test]
fn update_of_missing_view_is_unknown_error() {
    let mut repo: MemoryViewRepository<String> = MemoryViewRepository::new();
    let ctx = ViewContext::new("9".to_string(), 3);
    assert_eq!(
        repo.update_view("ghost".to_string(), &ctx),
        Err(PersistenceErrorKind::UnknownError)
    );
    assert_eq!(repo.load("9"), Ok(None));
}

#[test]
fn load_with_context_on_missing_view_is_none() {
    let repo: MemoryViewRepository<String> = MemoryViewRepository::new();
    assert_eq!(repo.load_with_context("5").map(|o| o.is_none()), Ok(true));
}
