//! The view repository's decision logic.
//!
//! A materialized view is a relational projection of an aggregate, keyed by
//! an identity parseable from a textual view id and carrying a version
//! counter: version 0 means the view does not exist yet, any greater
//! version means it was persisted at least once.
//!
//! The store round trips themselves are issued by the surrounding
//! application, which owns the connection; everything the repository
//! decides is here, verified: parsing the identity, normalizing store
//! failures, interpreting what a lookup returned, building the context a
//! loaded view travels with, and the create-vs-update dispatch.

use vstd::prelude::*;

use crate::errors::PersistenceErrorKind;
use crate::text::{all_dec_digits, dec_prefix_value, dec_value, scan_digit_run};

verus! {

/// What a store failure looked like at the connection boundary, as far as
/// the repository distinguishes it.
#[derive(Debug, Clone, Copy, PartialEq, Eq, Structural)]
#[non_exhaustive]
pub enum StoreError {
    /// An established connection to the store failed.
    Connection,
    /// No connection could be acquired from the pool.
    ConnectionAcquire,
    /// Any other store failure: constraint violation, serialization
    /// failure, and the like.
    Other,
}

/// The persistence error kind a store failure normalizes to: both
/// connection failures are retryable connection errors, everything else is
/// opaque.
pub open spec fn normalized(e: StoreError) -> PersistenceErrorKind {
    match e {
        StoreError::Connection => PersistenceErrorKind::ConnectionError,
        StoreError::ConnectionAcquire => PersistenceErrorKind::ConnectionError,
        StoreError::Other => PersistenceErrorKind::UnknownError,
    }
}

/// Error taxonomy: normalizes a store failure into the kind surfaced to
/// callers, keeping retryable connection failures distinguishable from the
/// rest.
pub fn normalize_store_error(e: StoreError) -> (r: PersistenceErrorKind)
    ensures
        r == normalized(e),
{
    match e {
        StoreError::Connection => PersistenceErrorKind::ConnectionError,
        StoreError::ConnectionAcquire => PersistenceErrorKind::ConnectionError,
        StoreError::Other => PersistenceErrorKind::UnknownError,
    }
}

/// A textual view identifier in the store's native key form: at least one
/// ASCII decimal digit, nothing else, with a value that fits the key type.
pub open spec fn is_view_key_text(s: Seq<char>) -> bool {
    s.len() > 0 && all_dec_digits(s) && dec_value(s) <= u64::MAX
}

/// Identity codec: parses a textual view identifier into the store's
/// numeric primary-key type, failing with `MalformedIdentity` on any text
/// that is not a key.
pub fn parse_view_id(view_id: &str) -> (r: Result<u64, PersistenceErrorKind>)
    ensures
        match r {
            Ok(k) => is_view_key_text(view_id@) && k == dec_value(view_id@),
            Err(e) => !is_view_key_text(view_id@) && e == PersistenceErrorKind::MalformedIdentity,
        },
{
    let n = view_id.unicode_len();
    let k = scan_digit_run(view_id);
    if n == 0 || k < n {
        return Err(PersistenceErrorKind::MalformedIdentity);
    }
    proof {
        assert(view_id@.take(n as int) =~= view_id@);
    }
    match dec_prefix_value(view_id, n, u64::MAX) {
        Some(v) => Ok(v),
        None => Err(PersistenceErrorKind::MalformedIdentity),
    }
}

/// The metadata a loaded view travels with: its textual identifier and the
/// version under which the store holds it. Version 0 denotes a view that
/// does not exist yet; a version greater than 0 denotes one persisted at
/// least once.
#[derive(Debug, Clone, PartialEq, Eq)]
pub struct ViewContext {
    pub view_id: String,
    pub version: u64,
}

impl ViewContext {
    pub fn new(view_id: String, version: u64) -> (r: ViewContext)
        ensures
            r.view_id == view_id,
            r.version == version,
    {
        ViewContext { view_id, version }
    }
}

/// The two terminal write actions of the create-vs-update decision.
#[derive(Debug, Clone, Copy, PartialEq, Eq, Structural)]
pub enum WriteOp {
    /// Insert a brand-new row.
    Insert,
    /// Update the existing row in place, by primary key.
    UpdateExisting,
}

/// Create-vs-update dispatch: a context version greater than 0 means the
/// view exists and is updated in place; version 0 means it is absent and a
/// row is inserted. The decision is made exactly once — the caller performs
/// the one returned store operation, so the update path can never re-enter
/// the dispatch.
pub fn decide_write(context: &ViewContext) -> (op: WriteOp)
    ensures
        op == (if context.version > 0 {
            WriteOp::UpdateExisting
        } else {
            WriteOp::Insert
        }),
{
    if context.version > 0 {
        WriteOp::UpdateExisting
    } else {
        WriteOp::Insert
    }
}

/// What one find-by-key round trip to the store handed back: the row and
/// its stored version, no row, or a failure.
pub enum LookupOutcome<V> {
    Found(V, u64),
    Missing,
    Failed(StoreError),
}

/// Interprets a lookup for `load`: a missing row is `Ok(None)`, never an
/// error; a store failure is normalized through the error taxonomy.
pub fn interpret_load<V>(outcome: LookupOutcome<V>) -> (r: Result<
    Option<V>,
    PersistenceErrorKind,
>)
    ensures
        match outcome {
            LookupOutcome::Found(v, version) => r == Ok::<Option<V>, PersistenceErrorKind>(
                Some(v),
            ),
            LookupOutcome::Missing => r == Ok::<Option<V>, PersistenceErrorKind>(None::<V>),
            LookupOutcome::Failed(e) => r == Err::<Option<V>, PersistenceErrorKind>(normalized(e)),
        },
{
    match outcome {
        LookupOutcome::Found(v, _version) => Ok(Some(v)),
        LookupOutcome::Missing => Ok(None),
        LookupOutcome::Failed(e) => Err(normalize_store_error(e)),
    }
}

/// Interprets a lookup for `load_with_context`: on success the view is
/// paired with a context carrying the version the store actually holds, so
/// that a later [`decide_write`] on that context routes an existing view to
/// the update path, not the insert path.
pub fn interpret_load_with_context<V>(view_id: &str, outcome: LookupOutcome<V>) -> (r: Result<
    Option<(V, ViewContext)>,
    PersistenceErrorKind,
>)
    ensures
        match outcome {
            LookupOutcome::Found(v, version) => (r matches Ok(Some((w, ctx))) && w == v
                && ctx.view_id@ == view_id@ && ctx.version == version),
            LookupOutcome::Missing => r == Ok::<Option<(V, ViewContext)>, PersistenceErrorKind>(
                None,
            ),
            LookupOutcome::Failed(e) => r == Err::<Option<(V, ViewContext)>, PersistenceErrorKind>(
                normalized(e),
            ),
        },
{
    match outcome {
        LookupOutcome::Found(v, version) => Ok(
            Some((v, ViewContext::new(view_id.to_owned(), version))),
        ),
        LookupOutcome::Missing => Ok(None),
        LookupOutcome::Failed(e) => Err(normalize_store_error(e)),
    }
}

/// Interprets what the store answered to an insert or an update-by-key:
/// any write failure surfaces as the opaque `UnknownError` kind.
pub fn interpret_write(outcome: Result<(), StoreError>) -> (r: Result<(), PersistenceErrorKind>)
    ensures
        outcome is Ok ==> r == Ok::<(), PersistenceErrorKind>(()),
        outcome is Err ==> r == Err::<(), PersistenceErrorKind>(PersistenceErrorKind::UnknownError),
{
    match outcome {
        Ok(()) => Ok(()),
        Err(_) => Err(PersistenceErrorKind::UnknownError),
    }
}

// ---------------------------------------------------------------------------
// Reference store
// ---------------------------------------------------------------------------

/// One persisted row: the parsed key, the version under which the row was
/// persisted, and the view's domain data.
pub struct StoredRow<T> {
    pub key: u64,
    pub version: u64,
    pub view: T,
}

/// The first row of `rows` holding `key`, if any.
pub open spec fn stored_row<T>(rows: Seq<StoredRow<T>>, key: u64) -> Option<StoredRow<T>>
    decreases rows.len(),
{
    if rows.len() == 0 {
        None
    } else if rows[0].key == key {
        Some(rows[0])
    } else {
        stored_row(rows.drop_first(), key)
    }
}

/// `stored_row` is what a left-to-right scan finds.
proof fn lemma_stored_row_is<T>(rows: Seq<StoredRow<T>>, key: u64, n: int)
    requires
        0 <= n <= rows.len(),
        forall|j: int| 0 <= j < n ==> (#[trigger] rows[j]).key != key,
        n < rows.len() ==> rows[n].key == key,
    ensures
        stored_row(rows, key) == (if n < rows.len() {
            Some(rows[n])
        } else {
            None::<StoredRow<T>>
        }),
    decreases rows.len(),
{
    if n != 0 {
        assert(rows[0].key != key);
        lemma_stored_row_is(rows.drop_first(), key, n - 1);
    }
}

/// Appending a row with a fresh key adds exactly that binding.
proof fn lemma_stored_row_push<T>(rows: Seq<StoredRow<T>>, row: StoredRow<T>, key: u64)
    requires
        stored_row(rows, row.key) is None,
    ensures
        stored_row(rows.push(row), key) == (if key == row.key {
            Some(row)
        } else {
            stored_row(rows, key)
        }),
    decreases rows.len(),
{
    if rows.len() == 0 {
        assert(rows.push(row).drop_first() =~= Seq::<StoredRow<T>>::empty());
        assert(stored_row(Seq::<StoredRow<T>>::empty(), key) is None);
    } else {
        assert(rows.push(row).drop_first() =~= rows.drop_first().push(row));
        lemma_stored_row_push(rows.drop_first(), row, key);
    }
}

/// Replacing the row at `i` with one under the same key changes exactly
/// that binding.
proof fn lemma_stored_row_update<T>(rows: Seq<StoredRow<T>>, i: int, row: StoredRow<T>, key: u64)
    requires
        0 <= i < rows.len(),
        rows[i].key == row.key,
        forall|j: int| 0 <= j < i ==> (#[trigger] rows[j]).key != row.key,
    ensures
        stored_row(rows.update(i, row), key) == (if key == row.key {
            Some(row)
        } else {
            stored_row(rows, key)
        }),
    decreases rows.len(),
{
    if i == 0 {
        assert(rows.update(0, row).drop_first() =~= rows.drop_first());
    } else {
        assert(rows.update(i, row).drop_first() =~= rows.drop_first().update(i - 1, row));
        lemma_stored_row_update(rows.drop_first(), i - 1, row, key);
    }
}

/// An in-memory materialized-view store with the observable contract of
/// the relational one: rows keyed by the parsed identity, each carrying
/// the version under which it was persisted. It is the verified reference
/// for what the repository operations mean — in particular, that a view
/// just created is the one a subsequent load finds — while the relational
/// store is driven by the surrounding application through the same
/// decision functions.
pub struct MemoryViewRepository<T> {
    rows: Vec<StoredRow<T>>,
}

impl<T> MemoryViewRepository<T> {
    /// The persisted rows, in insertion order.
    pub closed spec fn table(self) -> Seq<StoredRow<T>> {
        self.rows@
    }

    /// Well-formed: no two rows share a key.
    pub open spec fn wf(self) -> bool {
        forall|i: int, j: int|
            0 <= i < j < self.table().len() ==> (#[trigger] self.table()[i]).key
                != (#[trigger] self.table()[j]).key
    }

    /// An empty store: no view exists yet.
    pub fn new() -> (r: Self)
        ensures
            r.wf(),
            r.table() == Seq::<StoredRow<T>>::empty(),
    {
        MemoryViewRepository { rows: Vec::new() }
    }

    /// The index of the row holding `key`, if one does.
    fn find_index(&self, key: u64) -> (r: Option<usize>)
        ensures
            match r {
                Some(i) => i < self.table().len() && stored_row(self.table(), key) == Some(
                    self.table()[i as int],
                ) && self.table()[i as int].key == key,
                None => stored_row(self.table(), key) is None,
            },
    {
        let n = self.rows.len();
        let mut i: usize = 0;
        while i < n
            invariant
                n == self.table().len(),
                0 <= i <= n,
                forall|j: int| 0 <= j < i ==> (#[trigger] self.table()[j]).key != key,
            decreases n - i,
        {
            if self.rows[i].key == key {
                proof {
                    lemma_stored_row_is(self.table(), key, i as int);
                }
                return Some(i);
            }
            i += 1;
        }
        proof {
            lemma_stored_row_is(self.table(), key, n as int);
        }
        None
    }

    /// Loads the view a textual identifier names. A missing row is
    /// `Ok(None)`, never an error; text that is no key fails with
    /// `MalformedIdentity`.
    pub fn load(&self, view_id: &str) -> (r: Result<Option<&T>, PersistenceErrorKind>)
        ensures
            !is_view_key_text(view_id@) ==> r == Err::<Option<&T>, PersistenceErrorKind>(
                PersistenceErrorKind::MalformedIdentity,
            ),
            is_view_key_text(view_id@) ==> (match stored_row(
                self.table(),
                dec_value(view_id@) as u64,
            ) {
                Some(row) => r matches Ok(Some(v)) && *v == row.view,
                None => r matches Ok(None),
            }),
    {
        let key = match parse_view_id(view_id) {
            Ok(k) => k,
            Err(e) => {
                return Err(e);
            },
        };
        match self.find_index(key) {
            Some(i) => Ok(Some(&self.rows[i].view)),
            None => Ok(None),
        }
    }

    /// Loads a view together with its context. The context carries the
    /// version the store actually holds for the row, so that a later
    /// [`decide_write`] on it routes the existing view to the update path.
    pub fn load_with_context(&self, view_id: &str) -> (r: Result<
        Option<(&T, ViewContext)>,
        PersistenceErrorKind,
    >)
        ensures
            !is_view_key_text(view_id@) ==> r == Err::<
                Option<(&T, ViewContext)>,
                PersistenceErrorKind,
            >(PersistenceErrorKind::MalformedIdentity),
            is_view_key_text(view_id@) ==> (match stored_row(
                self.table(),
                dec_value(view_id@) as u64,
            ) {
                Some(row) => r matches Ok(Some((v, ctx))) && *v == row.view && ctx.view_id@
                    == view_id@ && ctx.version == row.version,
                None => r matches Ok(None),
            }),
    {
        let key = match parse_view_id(view_id) {
            Ok(k) => k,
            Err(e) => {
                return Err(e);
            },
        };
        match self.find_index(key) {
            Some(i) => Ok(
                Some((&self.rows[i].view, ViewContext::new(view_id.to_owned(), self.rows[i].version))),
            ),
            None => Ok(None),
        }
    }

    /// Inserts a brand-new row for the view under the identity in
    /// `context`, persisted one version past the context's. Any insert
    /// failure — here, a row already held under that key — surfaces as the
    /// opaque `UnknownError`, as a malformed identity does as
    /// `MalformedIdentity`; the store is unchanged on failure.
    pub fn create_view(&mut self, view: T, context: &ViewContext) -> (r: Result<
        (),
        PersistenceErrorKind,
    >)
        requires
            old(self).wf(),
            context.version < u64::MAX,
        ensures
            final(self).wf(),
            !is_view_key_text(context.view_id@) ==> r == Err::<(), PersistenceErrorKind>(
                PersistenceErrorKind::MalformedIdentity,
            ) && final(self).table() == old(self).table(),
            is_view_key_text(context.view_id@) ==> ({
                let key = dec_value(context.view_id@) as u64;
                match stored_row(old(self).table(), key) {
                    Some(_) => r == Err::<(), PersistenceErrorKind>(
                        PersistenceErrorKind::UnknownError,
                    ) && final(self).table() == old(self).table(),
                    None => r == Ok::<(), PersistenceErrorKind>(()) && stored_row(
                        final(self).table(),
                        key,
                    ) == Some(
                        (StoredRow { key, version: (context.version + 1) as u64, view }),
                    ) && (forall|k: u64|
                        k != key ==> stored_row(final(self).table(), k) == stored_row(
                            old(self).table(),
                            k,
                        )),
                }
            }),
    {
        let key = match parse_view_id(context.view_id.as_str()) {
            Ok(k) => k,
            Err(e) => {
                return Err(e);
            },
        };
        match self.find_index(key) {
            Some(_) => Err(PersistenceErrorKind::UnknownError),
            None => {
                let row = StoredRow { key, version: context.version + 1, view };
                proof {
                    let ghost rows = self.rows@;
                    assert forall|k: u64| true implies stored_row(rows.push(row), k) == (if k
                        == row.key {
                        Some(row)
                    } else {
                        stored_row(rows, k)
                    }) by {
                        lemma_stored_row_push(rows, row, k);
                    }
                }
                self.rows.push(row);
                proof {
                    assert forall|i: int, j: int|
                        0 <= i < j < self.table().len() implies (#[trigger] self.table()[i]).key
                        != (#[trigger] self.table()[j]).key by {
                        if j + 1 == self.table().len() {
                            if self.table()[i].key == key {
                                lemma_stored_row_is(old(self).table(), key, i);
                            }
                        }
                    }
                }
                Ok(())
            },
        }
    }

    /// The contract entry point for persisting a view: decides
    /// create-vs-update once, by the context's version, and performs the
    /// one store operation that decision names — version 0 inserts, any
    /// greater version updates the existing row in place. On the update
    /// path a missing row is a store failure, surfaced as `UnknownError`.
    pub fn update_view(&mut self, view: T, context: &ViewContext) -> (r: Result<
        (),
        PersistenceErrorKind,
    >)
        requires
            old(self).wf(),
            context.version < u64::MAX,
        ensures
            final(self).wf(),
            context.version == 0 ==> ({
                &&& !is_view_key_text(context.view_id@) ==> r == Err::<(), PersistenceErrorKind>(
                    PersistenceErrorKind::MalformedIdentity,
                ) && final(self).table() == old(self).table()
                &&& is_view_key_text(context.view_id@) ==> ({
                    let key = dec_value(context.view_id@) as u64;
                    match stored_row(old(self).table(), key) {
                        Some(_) => r == Err::<(), PersistenceErrorKind>(
                            PersistenceErrorKind::UnknownError,
                        ) && final(self).table() == old(self).table(),
                        None => r == Ok::<(), PersistenceErrorKind>(()) && stored_row(
                            final(self).table(),
                            key,
                        ) == Some((StoredRow { key, version: 1u64, view })) && (forall|k: u64|
                            k != key ==> stored_row(final(self).table(), k) == stored_row(
                                old(self).table(),
                                k,
                            )),
                    }
                })
            }),
            context.version > 0 ==> ({
                &&& !is_view_key_text(context.view_id@) ==> r == Err::<(), PersistenceErrorKind>(
                    PersistenceErrorKind::MalformedIdentity,
                ) && final(self).table() == old(self).table()
                &&& is_view_key_text(context.view_id@) ==> ({
                    let key = dec_value(context.view_id@) as u64;
                    match stored_row(old(self).table(), key) {
                        None => r == Err::<(), PersistenceErrorKind>(
                            PersistenceErrorKind::UnknownError,
                        ) && final(self).table() == old(self).table(),
                        Some(_) => r == Ok::<(), PersistenceErrorKind>(()) && stored_row(
                            final(self).table(),
                            key,
                        ) == Some(
                            (StoredRow { key, version: (context.version + 1) as u64, view }),
                        ) && (forall|k: u64|
                            k != key ==> stored_row(final(self).table(), k) == stored_row(
                                old(self).table(),
                                k,
                            )),
                    }
                })
            }),
    {
        let op = decide_write(context);
        match op {
            WriteOp::Insert => self.create_view(view, context),
            WriteOp::UpdateExisting => self.update_row(view, context),
        }
    }

    /// The row-update primitive of the update path: replaces the existing
    /// row under the context's identity, persisted one version past the
    /// context's.
    fn update_row(&mut self, view: T, context: &ViewContext) -> (r: Result<
        (),
        PersistenceErrorKind,
    >)
        requires
            old(self).wf(),
            context.version < u64::MAX,
        ensures
            final(self).wf(),
            !is_view_key_text(context.view_id@) ==> r == Err::<(), PersistenceErrorKind>(
                PersistenceErrorKind::MalformedIdentity,
            ) && final(self).table() == old(self).table(),
            is_view_key_text(context.view_id@) ==> ({
                let key = dec_value(context.view_id@) as u64;
                match stored_row(old(self).table(), key) {
                    None => r == Err::<(), PersistenceErrorKind>(
                        PersistenceErrorKind::UnknownError,
                    ) && final(self).table() == old(self).table(),
                    Some(_) => r == Ok::<(), PersistenceErrorKind>(()) && stored_row(
                        final(self).table(),
                        key,
                    ) == Some(
                        (StoredRow { key, version: (context.version + 1) as u64, view }),
                    ) && (forall|k: u64|
                        k != key ==> stored_row(final(self).table(), k) == stored_row(
                            old(self).table(),
                            k,
                        )),
                }
            }),
    {
        let key = match parse_view_id(context.view_id.as_str()) {
            Ok(k) => k,
            Err(e) => {
                return Err(e);
            },
        };
        match self.find_index(key) {
            None => Err(PersistenceErrorKind::UnknownError),
            Some(i) => {
                let row = StoredRow { key, version: context.version + 1, view };
                proof {
                    let ghost rows = self.rows@;
                    assert forall|j: int| 0 <= j < i implies (#[trigger] rows[j]).key != key by {
                        if rows[j].key == key {
                            lemma_stored_row_is(rows, key, j);
                        }
                    }
                    assert forall|k: u64| true implies stored_row(rows.update(i as int, row), k)
                        == (if k == row.key {
                        Some(row)
                    } else {
                        stored_row(rows, k)
                    }) by {
                        lemma_stored_row_update(rows, i as int, row, k);
                    }
                }
                self.rows[i] = row;
                Ok(())
            },
        }
    }
}

} // verus!
