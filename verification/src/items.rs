//! The inbox service: opaque-id items.
//!
//! An item is created with a freshly generated id and the server's
//! insert-time clock value, is deletable by id, and is never updated.
//! The listing returns every row, in insertion order.  Mutations run the
//! full pipeline: authorize, decode, persist, reload, respond.

use crate::auth::{authorized, check_credential, cookie_view};
use crate::clock::now_timestamp;
use crate::credential::CredentialStore;
use crate::error::{AppError, ErrorKind};
use crate::wire::{get_str_field, str_field, Listing, ListingModel, SVal, Scalar, WireObj};
use vstd::prelude::*;

verus! {

/// A stored inbox item.
pub struct Item {
    pub id: String,
    pub name: String,
    pub created_at: i64,
}

/// The mathematical model of an `Item`.
pub struct ItemModel {
    pub id: Seq<char>,
    pub name: Seq<char>,
    pub created_at: int,
}

impl View for Item {
    type V = ItemModel;

    open spec fn view(&self) -> ItemModel {
        ItemModel { id: self.id@, name: self.name@, created_at: self.created_at as int }
    }
}

/// The models of a sequence of stored items.
pub open spec fn item_models(s: Seq<Item>) -> Seq<ItemModel> {
    s.map_values(|it: Item| it@)
}

/// The inbox service's record store: all items, in insertion order.
pub struct ItemStore {
    items: Vec<Item>,
}

impl View for ItemStore {
    type V = Seq<ItemModel>;

    closed spec fn view(&self) -> Seq<ItemModel> {
        item_models(self.items@)
    }
}

/// The untagged encoding of one stored item: every field present, no
/// discriminator.
pub open spec fn encode_item(m: ItemModel) -> Seq<(Seq<char>, SVal)> {
    seq![
        ("id"@, SVal::Str(m.id)),
        ("name"@, SVal::Str(m.name)),
        ("created_at"@, SVal::Int(m.created_at)),
    ]
}

/// The full listing the service answers with: every row, encoded.
pub open spec fn items_listing(s: Seq<ItemModel>) -> ListingModel {
    ListingModel { key: "items"@, rows: s.map_values(|m: ItemModel| encode_item(m)) }
}

/// The store after deleting an id: every row whose id differs, in order.
pub open spec fn items_without(s: Seq<ItemModel>, id: Seq<char>) -> Seq<ItemModel> {
    s.filter(|m: ItemModel| m.id != id)
}

/// What decoding an add-item request body yields: the single required
/// `name` field, a string appearing at most once.
pub open spec fn item_req_of(o: Seq<(Seq<char>, SVal)>) -> Result<Seq<char>, ()> {
    str_field(o, "name"@)
}

/// Relies on `uuid::Uuid::new_v4().to_string()`: a fresh random
/// version-4 id in the hyphenated form, 36 characters; nothing more is
/// promised of a random value.
#[verifier::external_body]
pub(crate) fn fresh_item_id() -> (r: String)
    ensures
        r@.len() == 36,
{
    uuid::Uuid::new_v4().to_string()
}

impl ItemStore {
    /// An empty store.
    pub fn new() -> (r: ItemStore)
        ensures
            r@ == Seq::<ItemModel>::empty(),
    {
        let r = ItemStore { items: Vec::new() };
        proof {
            assert(r@ =~= Seq::<ItemModel>::empty());
        }
        r
    }

    /// Appends one item; the single-statement insert of the store.
    pub fn insert(&mut self, id: String, name: String, created_at: i64)
        ensures
            final(self)@ == old(self)@.push(
                ItemModel { id: id@, name: name@, created_at: created_at as int },
            ),
    {
        let ghost m = ItemModel { id: id@, name: name@, created_at: created_at as int };
        self.items.push(Item { id, name, created_at });
        proof {
            assert(self@ =~= old(self)@.push(m));
        }
    }

    /// Removes every row with the given id; the single-statement delete.
    pub fn delete(&mut self, id: &str)
        ensures
            final(self)@ == items_without(old(self)@, id@),
    {
        let ghost s = old(self)@;
        let mut kept: Vec<Item> = Vec::new();
        let mut i: usize = 0;
        proof {
            reveal(Seq::filter);
            assert(s.take(0) =~= Seq::<ItemModel>::empty());
            assert(item_models(kept@) =~= items_without(s.take(0), id@));
        }
        while i < self.items.len()
            invariant
                i <= self.items.len(),
                self.items@ == old(self).items@,
                s == old(self)@,
                s.len() == self.items@.len(),
                item_models(kept@) == items_without(s.take(i as int), id@),
            decreases self.items.len() - i,
        {
            let keep = !crate::text::str_eq(self.items[i].id.as_str(), id);
            proof {
                reveal(Seq::filter);
                assert(s.take(i as int + 1).drop_last() =~= s.take(i as int));
                assert(s.take(i as int + 1).last() == s[i as int]);
                assert(s[i as int] == self.items@[i as int]@);
            }
            if keep {
                let it = &self.items[i];
                kept.push(Item {
                    id: it.id.clone(),
                    name: it.name.clone(),
                    created_at: it.created_at,
                });
                proof {
                    assert(kept@.last()@ == s[i as int]);
                }
            }
            proof {
                reveal(Seq::filter);
                assert(item_models(kept@) =~= items_without(s.take(i as int + 1), id@));
            }
            i = i + 1;
        }
        self.items = kept;
        proof {
            assert(s.take(s.len() as int) =~= s);
        }
    }

    /// Encodes the full current listing.
    pub fn list(&self) -> (r: Listing)
        ensures
            r@ == items_listing(self@),
    {
        let mut rows: Vec<WireObj> = Vec::new();
        let mut i: usize = 0;
        while i < self.items.len()
            invariant
                i <= self.items.len(),
                rows@.len() == i,
                forall|j: int| 0 <= j < i ==> (#[trigger] rows@[j])@ == encode_item(self@[j]),
                self@.len() == self.items@.len(),
            decreases self.items.len() - i,
        {
            let it = &self.items[i];
            let mut obj = WireObj::new();
            obj.push_field("id", Scalar::Str(it.id.clone()));
            obj.push_field("name", Scalar::Str(it.name.clone()));
            obj.push_field("created_at", Scalar::Int(it.created_at));
            proof {
                assert(obj@ =~= encode_item(self@[i as int]));
            }
            rows.push(obj);
            i = i + 1;
        }
        let r = Listing { key: "items".to_owned(), rows };
        proof {
            assert(r@.rows =~= items_listing(self@).rows);
        }
        r
    }
}

/// Decodes an add-item request body.
pub fn decode_item_request(body: &WireObj) -> (r: Result<String, AppError>)
    ensures
        match r {
            Ok(name) => item_req_of(body@) == Ok::<Seq<char>, ()>(name@),
            Err(e) => item_req_of(body@) is Err && e.kind == ErrorKind::Validation,
        },
{
    get_str_field(body, "name")
}

/// Listing idempotence law: two listings of one store state are the
/// same ordered sequence.
pub proof fn lemma_items_listing_idempotent(
    s: Seq<ItemModel>,
    l1: ListingModel,
    l2: ListingModel,
)
    requires
        l1 == items_listing(s),
        l2 == items_listing(s),
    ensures
        l1 == l2,
{
}

/// The unauthenticated listing endpoint.
pub fn get_items(store: &ItemStore) -> (r: Listing)
    ensures
        r@ == items_listing(store@),
{
    store.list()
}

/// The add-item pipeline with the generated id and the clock reading
/// handed in: authorize, decode, persist, reload, respond.
pub fn add_item_with(
    store: &mut ItemStore,
    cred: &CredentialStore,
    cookie: Option<&String>,
    body: &WireObj,
    id: String,
    now: i64,
) -> (r: Result<Listing, AppError>)
    ensures
        !authorized(cookie_view(cookie), cred.secret()) ==> final(store)@ == old(store)@ && r
            is Err && r->Err_0.kind == ErrorKind::Authorization,
        authorized(cookie_view(cookie), cred.secret()) && item_req_of(body@) is Err ==> final(store)@
            == old(store)@ && r is Err && r->Err_0.kind == ErrorKind::Validation,
        authorized(cookie_view(cookie), cred.secret()) && item_req_of(body@) is Ok ==> ({
            &&& final(store)@ == old(store)@.push(
                ItemModel { id: id@, name: item_req_of(body@)->Ok_0, created_at: now as int },
            )
            &&& r is Ok
            &&& r->Ok_0@ == items_listing(final(store)@)
        }),
{
    if let Err(e) = check_credential(cookie, cred) {
        return Err(e);
    }
    let name = match decode_item_request(body) {
        Ok(n) => n,
        Err(e) => {
            return Err(e);
        },
    };
    store.insert(id, name, now);
    Ok(store.list())
}

/// The add-item endpoint: generates a fresh id, reads the server clock,
/// and runs the pipeline.
pub fn add_item(
    store: &mut ItemStore,
    cred: &CredentialStore,
    cookie: Option<&String>,
    body: &WireObj,
) -> (r: Result<Listing, AppError>)
    ensures
        !authorized(cookie_view(cookie), cred.secret()) ==> final(store)@ == old(store)@ && r
            is Err && r->Err_0.kind == ErrorKind::Authorization,
        authorized(cookie_view(cookie), cred.secret()) && item_req_of(body@) is Err ==> final(store)@
            == old(store)@ && r is Err && r->Err_0.kind == ErrorKind::Validation,
        authorized(cookie_view(cookie), cred.secret()) && item_req_of(body@) is Ok ==> ({
            &&& final(store)@.len() == old(store)@.len() + 1
            &&& final(store)@.drop_last() == old(store)@
            &&& final(store)@.last().name == item_req_of(body@)->Ok_0
            &&& final(store)@.last().id.len() == 36
            &&& r is Ok
            &&& r->Ok_0@ == items_listing(final(store)@)
        }),
{
    if let Err(e) = check_credential(cookie, cred) {
        return Err(e);
    }
    let id = fresh_item_id();
    let now = now_timestamp();
    let r = add_item_with(store, cred, cookie, body, id, now);
    proof {
        if authorized(cookie_view(cookie), cred.secret()) && item_req_of(body@) is Ok {
            assert(store@.drop_last() =~= old(store)@);
        }
    }
    r
}

/// The delete-item pipeline: authorize, then remove every row with the
/// given id and answer with the fresh listing.
pub fn delete_item(
    store: &mut ItemStore,
    cred: &CredentialStore,
    cookie: Option<&String>,
    id: &str,
) -> (r: Result<Listing, AppError>)
    ensures
        !authorized(cookie_view(cookie), cred.secret()) ==> final(store)@ == old(store)@ && r
            is Err && r->Err_0.kind == ErrorKind::Authorization,
        authorized(cookie_view(cookie), cred.secret()) ==> ({
            &&& final(store)@ == items_without(old(store)@, id@)
            &&& r is Ok
            &&& r->Ok_0@ == items_listing(final(store)@)
        }),
{
    if let Err(e) = check_credential(cookie, cred) {
        return Err(e);
    }
    store.delete(id);
    Ok(store.list())
}

} // verus!
