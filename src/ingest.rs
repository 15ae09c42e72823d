use vstd::prelude::*;
use crate::errors::ServiceError;

verus! {

/// Where an ingested item comes from.
#[derive(Clone, Debug)]
pub struct Source {
    pub name: String,
    pub url: Option<String>,
}

/// One item of an ingest request.
#[derive(Clone, Debug)]
pub struct IngestItem {
    pub title: String,
    pub content: String,
    pub source: Source,
}

/// A row to insert into the content store; the store assigns its id.
#[derive(Clone, Debug)]
pub struct NewRecord {
    pub title: String,
    pub text: String,
    pub source: String,
    pub url: Option<String>,
    pub created_at: String,
}

/// An item is accepted when its title, its content and its source's name
/// are non-empty.
pub open spec fn item_valid(item: IngestItem) -> bool {
    item.title@.len() > 0 && item.content@.len() > 0 && item.source.name@.len() > 0
}

pub open spec fn all_valid(items: Seq<IngestItem>) -> bool {
    forall|i: int| 0 <= i < items.len() ==> item_valid(#[trigger] items[i])
}

/// The record carries the item's fields unchanged.
pub open spec fn record_of(record: NewRecord, item: IngestItem) -> bool {
    record.title == item.title && record.text == item.content && record.source == item.source.name
        && record.url == item.source.url
}

pub open spec fn strictly_increasing(s: Seq<u64>) -> bool {
    forall|i: int, j: int| 0 <= i < j < s.len() ==> s[i] < s[j]
}

pub fn validate_item(item: &IngestItem) -> (r: Result<(), ServiceError>)
    ensures
        r is Ok <==> item_valid(*item),
        r is Err ==> r == Err::<(), ServiceError>(ServiceError::BadRequest),
{
    if item.title.as_str().is_empty() || item.content.as_str().is_empty()
        || item.source.name.as_str().is_empty() {
        Err(ServiceError::BadRequest)
    } else {
        Ok(())
    }
}

pub fn validate_items(items: &Vec<IngestItem>) -> (r: Result<(), ServiceError>)
    ensures
        r is Ok <==> all_valid(items@),
        r is Err ==> r == Err::<(), ServiceError>(ServiceError::BadRequest),
{
    let mut i: usize = 0;
    while i < items.len()
        invariant
            i <= items.len(),
            forall|j: int| 0 <= j < i ==> item_valid(#[trigger] items@[j]),
        decreases items.len() - i,
    {
        if validate_item(&items[i]).is_err() {
            return Err(ServiceError::BadRequest);
        }
        i = i + 1;
    }
    Ok(())
}

/// A search query is accepted when it is non-empty.
pub fn validate_query(query: &String) -> (r: Result<(), ServiceError>)
    ensures
        r is Ok <==> query@.len() > 0,
        r is Err ==> r == Err::<(), ServiceError>(ServiceError::BadRequest),
{
    if query.as_str().is_empty() {
        Err(ServiceError::BadRequest)
    } else {
        Ok(())
    }
}

/// Relies on chrono's `Utc::now` and `DateTime::to_rfc3339`: the current UTC
/// time, written as RFC 3339. Nothing is known of its value. (`Utc::now`
/// panics only on a system clock set before 1970.)
#[verifier::external_body]
fn now_rfc3339() -> (r: String) {
    chrono::Utc::now().to_rfc3339()
}

pub(crate) fn clone_url(u: &Option<String>) -> (r: Option<String>)
    ensures
        r == *u,
{
    match u {
        Some(s) => Some(s.clone()),
        None => None,
    }
}

/// The row to insert for an item, stamped with the current time.
pub fn record_for(item: &IngestItem) -> (r: NewRecord)
    ensures
        record_of(r, *item),
{
    NewRecord {
        title: item.title.clone(),
        text: item.content.clone(),
        source: item.source.name.clone(),
        url: clone_url(&item.source.url),
        created_at: now_rfc3339(),
    }
}

/// What the session waits for.
#[derive(Clone, Copy, Debug, PartialEq, Eq, Structural)]
pub enum Awaiting {
    /// The id that the content store gave the current item's row.
    Insert,
    /// The reply of the indexer for the current item, stored under `key`.
    Index { key: u64 },
    /// Nothing: the session is over.
    Nothing,
}

/// The next thing for the caller to do.
pub enum IngestAction {
    /// Insert this row into the content store.
    Insert { record: NewRecord },
    /// Embed `text` and add it to the vector index under `key`.
    Index { key: u64, text: String },
    /// Every item was committed to both stores.
    Done { count: usize },
    /// The request ends with this error; rows already inserted stay.
    Fail { error: ServiceError },
}

/// One ingest request, item after item: each row is inserted, then its text
/// is indexed under the id that the store gave it, before the next item
/// starts. The ids committed are strictly increasing; a store that gives an
/// id no larger than the previous one fails the request.
pub struct IngestSession {
    items: Vec<IngestItem>,
    next: usize,
    awaiting: Awaiting,
    keys: Vec<u64>,
}

impl IngestSession {
    /// The request's items.
    pub closed spec fn items(&self) -> Seq<IngestItem> {
        self.items@
    }

    /// How many items are committed to both stores.
    pub closed spec fn next(&self) -> nat {
        self.next as nat
    }

    pub closed spec fn awaiting(&self) -> Awaiting {
        self.awaiting
    }

    /// The ids under which the committed items stand, in input order.
    pub closed spec fn keys(&self) -> Seq<u64> {
        self.keys@
    }

    pub closed spec fn wf(&self) -> bool {
        &&& self.next <= self.items.len()
        &&& self.keys@.len() == self.next
        &&& strictly_increasing(self.keys@)
        &&& match self.awaiting {
            Awaiting::Insert => self.next < self.items.len(),
            Awaiting::Index { key } => self.next < self.items.len() && (self.keys@.len() == 0
                || self.keys@.last() < key),
            Awaiting::Nothing => true,
        }
    }

    /// Starts a request: every item is checked first, and a request with an
    /// invalid item inserts nothing.
    pub fn start(items: Vec<IngestItem>) -> (r: (IngestSession, IngestAction))
        ensures
            r.0.wf(),
            r.0.items() == items@,
            r.0.next() == 0,
            r.0.keys() == Seq::<u64>::empty(),
            !all_valid(items@) ==> r.0.awaiting() == Awaiting::Nothing && r.1 == (IngestAction::Fail {
                error: ServiceError::BadRequest,
            }),
            all_valid(items@) && items@.len() == 0 ==> r.0.awaiting() == Awaiting::Nothing && r.1
                == (IngestAction::Done { count: 0 }),
            all_valid(items@) && items@.len() > 0 ==> r.0.awaiting() == Awaiting::Insert && (
            match r.1 {
                IngestAction::Insert { record } => record_of(record, items@[0]),
                _ => false,
            }),
    {
        let checked = validate_items(&items);
        let keys: Vec<u64> = Vec::new();
        if checked.is_err() {
            let s = IngestSession { items, next: 0, awaiting: Awaiting::Nothing, keys };
            return (s, IngestAction::Fail { error: ServiceError::BadRequest });
        }
        if items.len() == 0 {
            let s = IngestSession { items, next: 0, awaiting: Awaiting::Nothing, keys };
            return (s, IngestAction::Done { count: 0 });
        }
        let record = record_for(&items[0]);
        let s = IngestSession { items, next: 0, awaiting: Awaiting::Insert, keys };
        (s, IngestAction::Insert { record })
    }

    pub fn is_awaiting_insert(&self) -> (r: bool)
        ensures
            r == (self.awaiting() == Awaiting::Insert),
    {
        match self.awaiting {
            Awaiting::Insert => true,
            _ => false,
        }
    }

    pub fn is_awaiting_index(&self) -> (r: bool)
        ensures
            r == (self.awaiting() is Index),
    {
        match self.awaiting {
            Awaiting::Index { .. } => true,
            _ => false,
        }
    }

    /// Takes the content store's answer to the current insert.
    pub fn on_inserted(&mut self, result: Result<u64, ServiceError>) -> (r: IngestAction)
        requires
            old(self).wf(),
            old(self).awaiting() == Awaiting::Insert,
        ensures
            final(self).wf(),
            final(self).items() == old(self).items(),
            final(self).next() == old(self).next(),
            final(self).keys() == old(self).keys(),
            match result {
                Ok(key) => if old(self).keys().len() == 0 || old(self).keys().last() < key {
                    final(self).awaiting() == (Awaiting::Index { key }) && r == (IngestAction::Index {
                        key,
                        text: old(self).items()[old(self).next() as int].content,
                    })
                } else {
                    final(self).awaiting() == Awaiting::Nothing && r == (IngestAction::Fail {
                        error: ServiceError::Storage,
                    })
                },
                Err(e) => final(self).awaiting() == Awaiting::Nothing && r == (IngestAction::Fail {
                    error: e,
                }),
            },
    {
        match result {
            Ok(key) => {
                let n = self.keys.len();
                if n == 0 || self.keys[n - 1] < key {
                    self.awaiting = Awaiting::Index { key };
                    IngestAction::Index { key, text: self.items[self.next].content.clone() }
                } else {
                    self.awaiting = Awaiting::Nothing;
                    IngestAction::Fail { error: ServiceError::Storage }
                }
            },
            Err(e) => {
                self.awaiting = Awaiting::Nothing;
                IngestAction::Fail { error: e }
            },
        }
    }

    /// Takes the indexer's answer for the current item. On success the item
    /// is committed and the next one starts, or the request is done.
    pub fn on_indexed(&mut self, result: Result<(), ServiceError>) -> (r: IngestAction)
        requires
            old(self).wf(),
            old(self).awaiting() is Index,
        ensures
            final(self).wf(),
            final(self).items() == old(self).items(),
            match result {
                Ok(_) => {
                    &&& final(self).keys() == old(self).keys().push(
                        old(self).awaiting()->Index_key,
                    )
                    &&& final(self).next() == old(self).next() + 1
                    &&& if final(self).next() == final(self).items().len() {
                        final(self).awaiting() == Awaiting::Nothing && r == (IngestAction::Done {
                            count: final(self).items().len() as usize,
                        })
                    } else {
                        final(self).awaiting() == Awaiting::Insert && match r {
                            IngestAction::Insert { record } => record_of(
                                record,
                                final(self).items()[final(self).next() as int],
                            ),
                            _ => false,
                        }
                    }
                },
                Err(e) => {
                    &&& final(self).keys() == old(self).keys()
                    &&& final(self).next() == old(self).next()
                    &&& final(self).awaiting() == Awaiting::Nothing
                    &&& r == (IngestAction::Fail { error: e })
                },
            },
    {
        match result {
            Ok(_) => {
                let key = match self.awaiting {
                    Awaiting::Index { key } => key,
                    _ => 0,
                };
                let ghost before = self.keys@;
                self.keys.push(key);
                assert(strictly_increasing(self.keys@)) by {
                    assert forall|i: int, j: int| 0 <= i < j < self.keys@.len() implies self.keys@[i]
                        < self.keys@[j] by {
                        if j == before.len() && i < before.len() - 1 {
                            assert(before[i] < before[before.len() - 1]);
                        }
                    }
                }
                self.next = self.next + 1;
                if self.next == self.items.len() {
                    self.awaiting = Awaiting::Nothing;
                    IngestAction::Done { count: self.items.len() }
                } else {
                    self.awaiting = Awaiting::Insert;
                    IngestAction::Insert { record: record_for(&self.items[self.next]) }
                }
            },
            Err(e) => {
                self.awaiting = Awaiting::Nothing;
                IngestAction::Fail { error: e }
            },
        }
    }

    /// The ids committed so far, in input order.
    pub fn committed_keys(&self) -> (r: Vec<u64>)
        ensures
            r@ == self.keys(),
    {
        self.keys.clone()
    }

    /// Ids that one ingest request commits are strictly increasing.
    pub proof fn lemma_keys_increasing(&self)
        requires
            self.wf(),
        ensures
            strictly_increasing(self.keys()),
            self.keys().len() == self.next(),
    {
    }
}

} // verus!
