//! The exercise service: append-only records in two variants.
//!
//! An exercise row is aerobic (duration, distance) or anaerobic (weight,
//! sets, reps).  Requests name their variant with an explicit `type`
//! tag; stored rows are encoded without one, and the client infers the
//! variant from which fields are present.  Rows are never updated or
//! deleted, the row date is the server's insert-time clock value, and
//! the listing shows the most recent hundred rows per variant, ordered
//! by date ascending.

use crate::auth::{authorized, check_credential, cookie_view};
use crate::clock::now_timestamp;
use crate::credential::CredentialStore;
use crate::error::{AppError, ErrorKind};
use crate::text::str_eq;
use crate::wire::{field_of, get_opt_int_field, get_opt_num_field, get_str_field, key_count, lookup,
    opt_int_field, opt_num_field, str_field, Listing, ListingModel, NumV, Number, SVal, Scalar,
    WireObj};
use vstd::prelude::*;

verus! {

/// Rows shown per variant in a listing.
pub const EXERCISE_LIST_LIMIT: usize = 100;

/// A stored aerobic row.
pub struct AerobicRow {
    pub id: i64,
    pub name: String,
    pub duration_min: Option<Number>,
    pub distance: Option<Number>,
    pub date: i64,
}

/// The mathematical model of an `AerobicRow`.
pub struct AerobicModel {
    pub id: int,
    pub name: Seq<char>,
    pub duration_min: Option<NumV>,
    pub distance: Option<NumV>,
    pub date: int,
}

/// A stored anaerobic row.
pub struct AnaerobicRow {
    pub id: i64,
    pub name: String,
    pub weight: Option<Number>,
    pub sets: Option<i64>,
    pub reps: Option<i64>,
    pub date: i64,
}

/// The mathematical model of an `AnaerobicRow`.
pub struct AnaerobicModel {
    pub id: int,
    pub name: Seq<char>,
    pub weight: Option<NumV>,
    pub sets: Option<int>,
    pub reps: Option<int>,
    pub date: int,
}

/// The model of an optional wire number.
pub open spec fn opt_num_view(v: Option<Number>) -> Option<NumV> {
    match v {
        Some(n) => Some(n@),
        None => None,
    }
}

/// The model of an optional integer.
pub open spec fn opt_int_view(v: Option<i64>) -> Option<int> {
    match v {
        Some(n) => Some(n as int),
        None => None,
    }
}

impl View for AerobicRow {
    type V = AerobicModel;

    open spec fn view(&self) -> AerobicModel {
        AerobicModel {
            id: self.id as int,
            name: self.name@,
            duration_min: opt_num_view(self.duration_min),
            distance: opt_num_view(self.distance),
            date: self.date as int,
        }
    }
}

impl View for AnaerobicRow {
    type V = AnaerobicModel;

    open spec fn view(&self) -> AnaerobicModel {
        AnaerobicModel {
            id: self.id as int,
            name: self.name@,
            weight: opt_num_view(self.weight),
            sets: opt_int_view(self.sets),
            reps: opt_int_view(self.reps),
            date: self.date as int,
        }
    }
}

/// Storage order for aerobic rows: date ascending, ties towards the
/// earlier insert.
pub open spec fn aero_precedes(a: AerobicModel, b: AerobicModel) -> bool {
    a.date < b.date || (a.date == b.date && a.id < b.id)
}

/// Storage order for anaerobic rows.
pub open spec fn ana_precedes(a: AnaerobicModel, b: AnaerobicModel) -> bool {
    a.date < b.date || (a.date == b.date && a.id < b.id)
}

/// Well-formed aerobic rows: in storage order, ids distinct, positive
/// and below the next id.
pub open spec fn aero_rows_wf(rows: Seq<AerobicModel>, next_id: int) -> bool {
    &&& forall|i: int, j: int|
        0 <= i < j < rows.len() ==> aero_precedes(#[trigger] rows[i], #[trigger] rows[j])
    &&& forall|i: int| 0 <= i < rows.len() ==> 0 < (#[trigger] rows[i]).id < next_id
}

/// Well-formed anaerobic rows.
pub open spec fn ana_rows_wf(rows: Seq<AnaerobicModel>, next_id: int) -> bool {
    &&& forall|i: int, j: int|
        0 <= i < j < rows.len() ==> ana_precedes(#[trigger] rows[i], #[trigger] rows[j])
    &&& forall|i: int| 0 <= i < rows.len() ==> 0 < (#[trigger] rows[i]).id < next_id
}

/// Where a new aerobic row lands: before the first stored row it
/// precedes.
pub open spec fn aero_insert(rows: Seq<AerobicModel>, m: AerobicModel) -> Seq<AerobicModel>
    decreases rows.len(),
{
    if rows.len() == 0 {
        seq![m]
    } else if aero_precedes(m, rows[0]) {
        seq![m] + rows
    } else {
        seq![rows[0]] + aero_insert(rows.drop_first(), m)
    }
}

/// Where a new anaerobic row lands.
pub open spec fn ana_insert(rows: Seq<AnaerobicModel>, m: AnaerobicModel) -> Seq<AnaerobicModel>
    decreases rows.len(),
{
    if rows.len() == 0 {
        seq![m]
    } else if ana_precedes(m, rows[0]) {
        seq![m] + rows
    } else {
        seq![rows[0]] + ana_insert(rows.drop_first(), m)
    }
}

/// Inserting the aerobic row with the next id keeps the rows
/// well-formed.
pub proof fn lemma_aero_insert_props(rows: Seq<AerobicModel>, next_id: int, m: AerobicModel)
    requires
        aero_rows_wf(rows, next_id),
        m.id == next_id,
        0 < next_id,
    ensures
        aero_rows_wf(aero_insert(rows, m), next_id + 1),
        aero_insert(rows, m).len() == rows.len() + 1,
    decreases rows.len(),
{
    let res = aero_insert(rows, m);
    if rows.len() == 0 {
        assert(res =~= seq![m]);
    } else if aero_precedes(m, rows[0]) {
        assert(res =~= seq![m] + rows);
    } else {
        let tail = rows.drop_first();
        assert(aero_rows_wf(tail, next_id)) by {
            assert(forall|i: int| 0 <= i < tail.len() ==> #[trigger] tail[i] == rows[i + 1]);
        }
        lemma_aero_insert_props(tail, next_id, m);
        let rest = aero_insert(tail, m);
        assert(res =~= seq![rows[0]] + rest);
        assert forall|k: int| 0 <= k < rest.len() implies aero_precedes(
            rows[0],
            #[trigger] rest[k],
        ) by {
            lemma_aero_insert_member(tail, m, k);
            if rest[k] == m {
            } else {
                let x = choose|x: int| 0 <= x < tail.len() && tail[x] == rest[k];
                assert(aero_precedes(rows[0], rows[x + 1]));
            }
        }
        assert forall|i: int, j: int| 0 <= i < j < res.len() implies aero_precedes(
            #[trigger] res[i],
            #[trigger] res[j],
        ) by {
            if i == 0 {
                assert(res[j] == rest[j - 1]);
            }
        }
    }
}

/// Every row of the aerobic sorted insert is the new row or an old one.
pub proof fn lemma_aero_insert_member(rows: Seq<AerobicModel>, m: AerobicModel, k: int)
    requires
        0 <= k < aero_insert(rows, m).len(),
    ensures
        aero_insert(rows, m)[k] == m || exists|x: int|
            0 <= x < rows.len() && rows[x] == aero_insert(rows, m)[k],
    decreases rows.len(),
{
    let res = aero_insert(rows, m);
    if rows.len() == 0 {
    } else if aero_precedes(m, rows[0]) {
        if k > 0 {
            assert(res[k] == rows[k - 1]);
        }
    } else {
        let tail = rows.drop_first();
        if k == 0 {
            assert(res[0] == rows[0]);
        } else {
            lemma_aero_insert_member(tail, m, k - 1);
            assert(res[k] == aero_insert(tail, m)[k - 1]);
            if aero_insert(tail, m)[k - 1] != m {
                let x = choose|x: int|
                    0 <= x < tail.len() && tail[x] == aero_insert(tail, m)[k - 1];
                assert(rows[x + 1] == res[k]);
            }
        }
    }
}

/// Inserting the anaerobic row with the next id keeps the rows
/// well-formed.
pub proof fn lemma_ana_insert_props(rows: Seq<AnaerobicModel>, next_id: int, m: AnaerobicModel)
    requires
        ana_rows_wf(rows, next_id),
        m.id == next_id,
        0 < next_id,
    ensures
        ana_rows_wf(ana_insert(rows, m), next_id + 1),
        ana_insert(rows, m).len() == rows.len() + 1,
    decreases rows.len(),
{
    let res = ana_insert(rows, m);
    if rows.len() == 0 {
        assert(res =~= seq![m]);
    } else if ana_precedes(m, rows[0]) {
        assert(res =~= seq![m] + rows);
    } else {
        let tail = rows.drop_first();
        assert(ana_rows_wf(tail, next_id)) by {
            assert(forall|i: int| 0 <= i < tail.len() ==> #[trigger] tail[i] == rows[i + 1]);
        }
        lemma_ana_insert_props(tail, next_id, m);
        let rest = ana_insert(tail, m);
        assert(res =~= seq![rows[0]] + rest);
        assert forall|k: int| 0 <= k < rest.len() implies ana_precedes(
            rows[0],
            #[trigger] rest[k],
        ) by {
            lemma_ana_insert_member(tail, m, k);
            if rest[k] == m {
            } else {
                let x = choose|x: int| 0 <= x < tail.len() && tail[x] == rest[k];
                assert(ana_precedes(rows[0], rows[x + 1]));
            }
        }
        assert forall|i: int, j: int| 0 <= i < j < res.len() implies ana_precedes(
            #[trigger] res[i],
            #[trigger] res[j],
        ) by {
            if i == 0 {
                assert(res[j] == rest[j - 1]);
            }
        }
    }
}

/// Every row of the anaerobic sorted insert is the new row or an old
/// one.
pub proof fn lemma_ana_insert_member(rows: Seq<AnaerobicModel>, m: AnaerobicModel, k: int)
    requires
        0 <= k < ana_insert(rows, m).len(),
    ensures
        ana_insert(rows, m)[k] == m || exists|x: int|
            0 <= x < rows.len() && rows[x] == ana_insert(rows, m)[k],
    decreases rows.len(),
{
    let res = ana_insert(rows, m);
    if rows.len() == 0 {
    } else if ana_precedes(m, rows[0]) {
        if k > 0 {
            assert(res[k] == rows[k - 1]);
        }
    } else {
        let tail = rows.drop_first();
        if k == 0 {
            assert(res[0] == rows[0]);
        } else {
            lemma_ana_insert_member(tail, m, k - 1);
            assert(res[k] == ana_insert(tail, m)[k - 1]);
            if ana_insert(tail, m)[k - 1] != m {
                let x = choose|x: int|
                    0 <= x < tail.len() && tail[x] == ana_insert(tail, m)[k - 1];
                assert(rows[x + 1] == res[k]);
            }
        }
    }
}

/// The most recent rows of a variant: the last hundred in storage
/// order, or all of them when fewer.
pub open spec fn recent_aero(rows: Seq<AerobicModel>) -> Seq<AerobicModel> {
    if rows.len() <= EXERCISE_LIST_LIMIT {
        rows
    } else {
        rows.skip(rows.len() - EXERCISE_LIST_LIMIT)
    }
}

/// The most recent anaerobic rows.
pub open spec fn recent_ana(rows: Seq<AnaerobicModel>) -> Seq<AnaerobicModel> {
    if rows.len() <= EXERCISE_LIST_LIMIT {
        rows
    } else {
        rows.skip(rows.len() - EXERCISE_LIST_LIMIT)
    }
}

/// The recent cut keeps the storage order: the shown aerobic rows
/// stand in date order.
pub proof fn lemma_recent_aero_ordered(rows: Seq<AerobicModel>)
    requires
        forall|i: int, j: int|
            0 <= i < j < rows.len() ==> aero_precedes(#[trigger] rows[i], #[trigger] rows[j]),
    ensures
        forall|i: int, j: int|
            0 <= i < j < recent_aero(rows).len() ==> aero_precedes(
                #[trigger] recent_aero(rows)[i],
                #[trigger] recent_aero(rows)[j],
            ),
        recent_aero(rows).len() == if rows.len() <= EXERCISE_LIST_LIMIT {
            rows.len()
        } else {
            EXERCISE_LIST_LIMIT as nat
        },
{
}

/// The shown anaerobic rows stand in date order as well.
pub proof fn lemma_recent_ana_ordered(rows: Seq<AnaerobicModel>)
    requires
        forall|i: int, j: int|
            0 <= i < j < rows.len() ==> ana_precedes(#[trigger] rows[i], #[trigger] rows[j]),
    ensures
        forall|i: int, j: int|
            0 <= i < j < recent_ana(rows).len() ==> ana_precedes(
                #[trigger] recent_ana(rows)[i],
                #[trigger] recent_ana(rows)[j],
            ),
        recent_ana(rows).len() == if rows.len() <= EXERCISE_LIST_LIMIT {
            rows.len()
        } else {
            EXERCISE_LIST_LIMIT as nat
        },
{
}

/// The wire scalar an optional number encodes to.
pub open spec fn num_sval(v: Option<NumV>) -> SVal {
    match v {
        None => SVal::Null,
        Some(n) => match n {
            NumV::Int(i) => SVal::Int(i),
            NumV::Dec(d) => SVal::Dec(d),
        },
    }
}

/// The wire scalar an optional integer encodes to.
pub open spec fn int_sval(v: Option<int>) -> SVal {
    match v {
        None => SVal::Null,
        Some(i) => SVal::Int(i),
    }
}

/// The untagged encoding of one aerobic row: every field present, no
/// discriminator; the client tells the variants apart by field shape.
pub open spec fn encode_aerobic(m: AerobicModel) -> Seq<(Seq<char>, SVal)> {
    seq![
        ("id"@, SVal::Int(m.id)),
        ("name"@, SVal::Str(m.name)),
        ("duration_min"@, num_sval(m.duration_min)),
        ("distance"@, num_sval(m.distance)),
        ("date"@, SVal::Int(m.date)),
    ]
}

/// The untagged encoding of one anaerobic row.
pub open spec fn encode_anaerobic(m: AnaerobicModel) -> Seq<(Seq<char>, SVal)> {
    seq![
        ("id"@, SVal::Int(m.id)),
        ("name"@, SVal::Str(m.name)),
        ("weight"@, num_sval(m.weight)),
        ("sets"@, int_sval(m.sets)),
        ("reps"@, int_sval(m.reps)),
        ("date"@, SVal::Int(m.date)),
    ]
}

/// The model of an exercise store.
pub struct ExerciseStoreModel {
    pub aerobic: Seq<AerobicModel>,
    pub anaerobic: Seq<AnaerobicModel>,
    pub next_aerobic_id: int,
    pub next_anaerobic_id: int,
}

/// The listing the service answers with: the recent aerobic rows, then
/// the recent anaerobic rows, each variant in date order.
pub open spec fn exercise_items_listing(m: ExerciseStoreModel) -> ListingModel {
    ListingModel {
        key: "items"@,
        rows: recent_aero(m.aerobic).map_values(|r: AerobicModel| encode_aerobic(r)) + recent_ana(
            m.anaerobic,
        ).map_values(|r: AnaerobicModel| encode_anaerobic(r)),
    }
}

/// The exercise service's record store.
pub struct ExerciseStore {
    aerobic: Vec<AerobicRow>,
    anaerobic: Vec<AnaerobicRow>,
    next_aerobic_id: i64,
    next_anaerobic_id: i64,
}

impl View for ExerciseStore {
    type V = ExerciseStoreModel;

    closed spec fn view(&self) -> ExerciseStoreModel {
        ExerciseStoreModel {
            aerobic: self.aerobic@.map_values(|r: AerobicRow| r@),
            anaerobic: self.anaerobic@.map_values(|r: AnaerobicRow| r@),
            next_aerobic_id: self.next_aerobic_id as int,
            next_anaerobic_id: self.next_anaerobic_id as int,
        }
    }
}

/// Encodes an optional number field value.
fn num_scalar(v: &Option<Number>) -> (r: Scalar)
    ensures
        r@ == num_sval(opt_num_view(*v)),
{
    match v {
        None => Scalar::Null,
        Some(n) => match n {
            Number::Int(i) => Scalar::Int(*i),
            Number::Dec(d) => Scalar::Dec(d.clone()),
        },
    }
}

/// Encodes an optional integer field value.
fn int_scalar(v: &Option<i64>) -> (r: Scalar)
    ensures
        r@ == int_sval(opt_int_view(*v)),
{
    match v {
        None => Scalar::Null,
        Some(i) => Scalar::Int(*i),
    }
}

impl ExerciseStore {
    /// The store is well-formed.
    pub open spec fn wf(&self) -> bool {
        &&& aero_rows_wf(self@.aerobic, self@.next_aerobic_id)
        &&& ana_rows_wf(self@.anaerobic, self@.next_anaerobic_id)
        &&& 0 < self@.next_aerobic_id <= i64::MAX
        &&& 0 < self@.next_anaerobic_id <= i64::MAX
    }

    /// An empty store; ids start at one per variant.
    pub fn new() -> (r: ExerciseStore)
        ensures
            r@.aerobic == Seq::<AerobicModel>::empty(),
            r@.anaerobic == Seq::<AnaerobicModel>::empty(),
            r@.next_aerobic_id == 1,
            r@.next_anaerobic_id == 1,
            r.wf(),
    {
        let r = ExerciseStore {
            aerobic: Vec::new(),
            anaerobic: Vec::new(),
            next_aerobic_id: 1,
            next_anaerobic_id: 1,
        };
        proof {
            assert(r@.aerobic =~= Seq::<AerobicModel>::empty());
            assert(r@.anaerobic =~= Seq::<AnaerobicModel>::empty());
        }
        r
    }

    /// Appends one aerobic row at its place in date order, assigning
    /// the next aerobic id.
    pub fn insert_aerobic(
        &mut self,
        name: String,
        duration_min: Option<Number>,
        distance: Option<Number>,
        date: i64,
    )
        requires
            old(self).wf(),
            old(self)@.next_aerobic_id < i64::MAX,
        ensures
            final(self).wf(),
            final(self)@.next_aerobic_id == old(self)@.next_aerobic_id + 1,
            final(self)@.aerobic == aero_insert(
                old(self)@.aerobic,
                AerobicModel {
                    id: old(self)@.next_aerobic_id,
                    name: name@,
                    duration_min: opt_num_view(duration_min),
                    distance: opt_num_view(distance),
                    date: date as int,
                },
            ),
            final(self)@.anaerobic == old(self)@.anaerobic,
            final(self)@.next_anaerobic_id == old(self)@.next_anaerobic_id,
    {
        let ghost s = self@.aerobic;
        let row = AerobicRow { id: self.next_aerobic_id, name, duration_min, distance, date };
        let ghost m = row@;
        let mut p: usize = 0;
        loop
            invariant
                p <= self.aerobic.len(),
                s == self@.aerobic,
                m == row@,
                self.aerobic@.len() == s.len(),
                self.aerobic@ == old(self).aerobic@,
                self.anaerobic@ == old(self).anaerobic@,
                self.next_aerobic_id == old(self).next_aerobic_id,
                self.next_anaerobic_id == old(self).next_anaerobic_id,
                forall|j: int| 0 <= j < p ==> !aero_precedes(m, #[trigger] s[j]),
            ensures
                p <= self.aerobic.len(),
                self.aerobic@ == old(self).aerobic@,
                self.anaerobic@ == old(self).anaerobic@,
                self.next_aerobic_id == old(self).next_aerobic_id,
                self.next_anaerobic_id == old(self).next_anaerobic_id,
                forall|j: int| 0 <= j < p ==> !aero_precedes(m, #[trigger] s[j]),
                p < self.aerobic.len() ==> aero_precedes(m, s[p as int]),
            decreases self.aerobic.len() - p,
        {
            if p == self.aerobic.len() {
                break;
            }
            proof {
                assert(s[p as int] == self.aerobic@[p as int]@);
            }
            let b = &self.aerobic[p];
            if row.date < b.date || (row.date == b.date && row.id < b.id) {
                break;
            }
            p = p + 1;
        }
        proof {
            lemma_aero_insert_at(s, m, p as int);
            lemma_aero_insert_props(s, self@.next_aerobic_id, m);
        }
        self.aerobic.insert(p, row);
        self.next_aerobic_id = self.next_aerobic_id + 1;
        proof {
            assert(self@.aerobic =~= aero_insert(s, m));
            assert(self@.anaerobic =~= old(self)@.anaerobic);
        }
    }

    /// Appends one anaerobic row at its place in date order, assigning
    /// the next anaerobic id.
    pub fn insert_anaerobic(
        &mut self,
        name: String,
        weight: Option<Number>,
        sets: Option<i64>,
        reps: Option<i64>,
        date: i64,
    )
        requires
            old(self).wf(),
            old(self)@.next_anaerobic_id < i64::MAX,
        ensures
            final(self).wf(),
            final(self)@.next_anaerobic_id == old(self)@.next_anaerobic_id + 1,
            final(self)@.anaerobic == ana_insert(
                old(self)@.anaerobic,
                AnaerobicModel {
                    id: old(self)@.next_anaerobic_id,
                    name: name@,
                    weight: opt_num_view(weight),
                    sets: opt_int_view(sets),
                    reps: opt_int_view(reps),
                    date: date as int,
                },
            ),
            final(self)@.aerobic == old(self)@.aerobic,
            final(self)@.next_aerobic_id == old(self)@.next_aerobic_id,
    {
        let ghost s = self@.anaerobic;
        let row = AnaerobicRow { id: self.next_anaerobic_id, name, weight, sets, reps, date };
        let ghost m = row@;
        let mut p: usize = 0;
        loop
            invariant
                p <= self.anaerobic.len(),
                s == self@.anaerobic,
                m == row@,
                self.anaerobic@.len() == s.len(),
                self.aerobic@ == old(self).aerobic@,
                self.anaerobic@ == old(self).anaerobic@,
                self.next_aerobic_id == old(self).next_aerobic_id,
                self.next_anaerobic_id == old(self).next_anaerobic_id,
                forall|j: int| 0 <= j < p ==> !ana_precedes(m, #[trigger] s[j]),
            ensures
                p <= self.anaerobic.len(),
                self.aerobic@ == old(self).aerobic@,
                self.anaerobic@ == old(self).anaerobic@,
                self.next_aerobic_id == old(self).next_aerobic_id,
                self.next_anaerobic_id == old(self).next_anaerobic_id,
                forall|j: int| 0 <= j < p ==> !ana_precedes(m, #[trigger] s[j]),
                p < self.anaerobic.len() ==> ana_precedes(m, s[p as int]),
            decreases self.anaerobic.len() - p,
        {
            if p == self.anaerobic.len() {
                break;
            }
            proof {
                assert(s[p as int] == self.anaerobic@[p as int]@);
            }
            let b = &self.anaerobic[p];
            if row.date < b.date || (row.date == b.date && row.id < b.id) {
                break;
            }
            p = p + 1;
        }
        proof {
            lemma_ana_insert_at(s, m, p as int);
            lemma_ana_insert_props(s, self@.next_anaerobic_id, m);
        }
        self.anaerobic.insert(p, row);
        self.next_anaerobic_id = self.next_anaerobic_id + 1;
        proof {
            assert(self@.anaerobic =~= ana_insert(s, m));
            assert(self@.aerobic =~= old(self)@.aerobic);
        }
    }

    /// Whether another id can still be assigned in both families; a
    /// caller outside the proofs tests this before an insert.
    pub fn id_capacity_left(&self) -> (r: bool)
        ensures
            r == (self@.next_aerobic_id < i64::MAX && self@.next_anaerobic_id < i64::MAX),
    {
        self.next_aerobic_id < i64::MAX && self.next_anaerobic_id < i64::MAX
    }

    /// Encodes the full current listing: recent aerobic rows, then
    /// recent anaerobic rows.
    pub fn list(&self) -> (r: Listing)
        ensures
            r@ == exercise_items_listing(self@),
    {
        let ghost sa = self@.aerobic;
        let ghost sb = self@.anaerobic;
        let mut rows: Vec<WireObj> = Vec::new();
        let a_len = self.aerobic.len();
        let a_start = if a_len > EXERCISE_LIST_LIMIT {
            a_len - EXERCISE_LIST_LIMIT
        } else {
            0
        };
        let ghost na = recent_aero(sa).len();
        let mut i: usize = a_start;
        while i < a_len
            invariant
                a_start <= i <= a_len,
                a_len == self.aerobic.len(),
                sa == self@.aerobic,
                sb == self@.anaerobic,
                self.aerobic@.len() == sa.len(),
                a_start == if sa.len() > EXERCISE_LIST_LIMIT {
                    sa.len() - EXERCISE_LIST_LIMIT
                } else {
                    0
                },
                na == recent_aero(sa).len(),
                rows@.len() == i - a_start,
                forall|k: int|
                    0 <= k < rows@.len() ==> (#[trigger] rows@[k])@ == encode_aerobic(
                        recent_aero(sa)[k],
                    ),
            decreases a_len - i,
        {
            let it = &self.aerobic[i];
            let mut obj = WireObj::new();
            obj.push_field("id", Scalar::Int(it.id));
            obj.push_field("name", Scalar::Str(it.name.clone()));
            obj.push_field("duration_min", num_scalar(&it.duration_min));
            obj.push_field("distance", num_scalar(&it.distance));
            obj.push_field("date", Scalar::Int(it.date));
            proof {
                assert(sa[i as int] == self.aerobic@[i as int]@);
                assert(recent_aero(sa)[i - a_start] == sa[i as int]);
                assert(obj@ =~= encode_aerobic(recent_aero(sa)[i - a_start]));
            }
            rows.push(obj);
            i = i + 1;
        }
        let b_len = self.anaerobic.len();
        let b_start = if b_len > EXERCISE_LIST_LIMIT {
            b_len - EXERCISE_LIST_LIMIT
        } else {
            0
        };
        let mut j: usize = b_start;
        while j < b_len
            invariant
                b_start <= j <= b_len,
                b_len == self.anaerobic.len(),
                sa == self@.aerobic,
                sb == self@.anaerobic,
                self.anaerobic@.len() == sb.len(),
                b_start == if sb.len() > EXERCISE_LIST_LIMIT {
                    sb.len() - EXERCISE_LIST_LIMIT
                } else {
                    0
                },
                na == recent_aero(sa).len(),
                rows@.len() == na + j - b_start,
                forall|k: int|
                    0 <= k < na ==> (#[trigger] rows@[k])@ == encode_aerobic(recent_aero(sa)[k]),
                forall|k: int|
                    na <= k < rows@.len() ==> (#[trigger] rows@[k])@ == encode_anaerobic(
                        recent_ana(sb)[k - na],
                    ),
            decreases b_len - j,
        {
            let it = &self.anaerobic[j];
            let mut obj = WireObj::new();
            obj.push_field("id", Scalar::Int(it.id));
            obj.push_field("name", Scalar::Str(it.name.clone()));
            obj.push_field("weight", num_scalar(&it.weight));
            obj.push_field("sets", int_scalar(&it.sets));
            obj.push_field("reps", int_scalar(&it.reps));
            obj.push_field("date", Scalar::Int(it.date));
            proof {
                assert(sb[j as int] == self.anaerobic@[j as int]@);
                assert(recent_ana(sb)[j - b_start] == sb[j as int]);
                assert(obj@ =~= encode_anaerobic(recent_ana(sb)[j - b_start]));
            }
            rows.push(obj);
            j = j + 1;
        }
        let r = Listing { key: "items".to_owned(), rows };
        proof {
            assert(r@.rows =~= exercise_items_listing(self@).rows);
        }
        r
    }
}

/// An aerobic request body, after decoding.
#[derive(Debug, PartialEq, Eq)]
pub struct AerobicRequest {
    pub name: String,
    pub duration_min: Option<Number>,
    pub distance: Option<Number>,
}

/// The mathematical model of an `AerobicRequest`.
pub struct AerobicReqModel {
    pub name: Seq<char>,
    pub duration_min: Option<NumV>,
    pub distance: Option<NumV>,
}

impl View for AerobicRequest {
    type V = AerobicReqModel;

    open spec fn view(&self) -> AerobicReqModel {
        AerobicReqModel {
            name: self.name@,
            duration_min: opt_num_view(self.duration_min),
            distance: opt_num_view(self.distance),
        }
    }
}

/// An anaerobic request body, after decoding.
#[derive(Debug, PartialEq, Eq)]
pub struct AnaerobicRequest {
    pub name: String,
    pub weight: Option<Number>,
    pub sets: Option<i64>,
    pub reps: Option<i64>,
}

/// The mathematical model of an `AnaerobicRequest`.
pub struct AnaerobicReqModel {
    pub name: Seq<char>,
    pub weight: Option<NumV>,
    pub sets: Option<int>,
    pub reps: Option<int>,
}

impl View for AnaerobicRequest {
    type V = AnaerobicReqModel;

    open spec fn view(&self) -> AnaerobicReqModel {
        AnaerobicReqModel {
            name: self.name@,
            weight: opt_num_view(self.weight),
            sets: opt_int_view(self.sets),
            reps: opt_int_view(self.reps),
        }
    }
}

/// A decoded add-item request: the tag picked the variant.
#[derive(Debug, PartialEq, Eq)]
pub enum ExerciseRequest {
    Aerobic(AerobicRequest),
    Anaerobic(AnaerobicRequest),
}

/// The mathematical model of an `ExerciseRequest`.
pub enum ExerciseReqV {
    Aerobic(AerobicReqModel),
    Anaerobic(AnaerobicReqModel),
}

impl View for ExerciseRequest {
    type V = ExerciseReqV;

    open spec fn view(&self) -> ExerciseReqV {
        match self {
            ExerciseRequest::Aerobic(q) => ExerciseReqV::Aerobic(q@),
            ExerciseRequest::Anaerobic(q) => ExerciseReqV::Anaerobic(q@),
        }
    }
}

/// What decoding the remaining fields of a tagged aerobic request
/// yields.
pub open spec fn aerobic_req_of(o: Seq<(Seq<char>, SVal)>) -> Result<ExerciseReqV, ()> {
    match str_field(o, "name"@) {
        Err(()) => Err(()),
        Ok(n) => match opt_num_field(o, "duration_min"@) {
            Err(()) => Err(()),
            Ok(d) => match opt_num_field(o, "distance"@) {
                Err(()) => Err(()),
                Ok(di) => Ok(
                    ExerciseReqV::Aerobic(
                        AerobicReqModel { name: n, duration_min: d, distance: di },
                    ),
                ),
            },
        },
    }
}

/// What decoding the remaining fields of a tagged anaerobic request
/// yields.
pub open spec fn anaerobic_req_of(o: Seq<(Seq<char>, SVal)>) -> Result<ExerciseReqV, ()> {
    match str_field(o, "name"@) {
        Err(()) => Err(()),
        Ok(n) => match opt_num_field(o, "weight"@) {
            Err(()) => Err(()),
            Ok(w) => match opt_int_field(o, "sets"@) {
                Err(()) => Err(()),
                Ok(st) => match opt_int_field(o, "reps"@) {
                    Err(()) => Err(()),
                    Ok(rp) => Ok(
                        ExerciseReqV::Anaerobic(
                            AnaerobicReqModel { name: n, weight: w, sets: st, reps: rp },
                        ),
                    ),
                },
            },
        },
    }
}

/// What decoding an add-item request body yields: the explicit `type`
/// tag selects the variant before the remaining fields are checked
/// against that variant's shape; an unknown tag is a failure.
pub open spec fn exercise_req_of(o: Seq<(Seq<char>, SVal)>) -> Result<ExerciseReqV, ()> {
    match field_of(o, "type"@) {
        Err(()) => Err(()),
        Ok(f) => match f {
            Some(v) => match v {
                SVal::Str(t) => if t == "aerobic"@ {
                    aerobic_req_of(o)
                } else if t == "anaerobic"@ {
                    anaerobic_req_of(o)
                } else {
                    Err(())
                },
                _ => Err(()),
            },
            None => Err(()),
        },
    }
}

/// Decodes an add-item request body, tag first.
pub fn decode_exercise_request(body: &WireObj) -> (r: Result<ExerciseRequest, AppError>)
    ensures
        match r {
            Ok(req) => exercise_req_of(body@) == Ok::<ExerciseReqV, ()>(req@),
            Err(e) => exercise_req_of(body@) is Err && e.kind == ErrorKind::Validation,
        },
{
    if body.count_key("type") > 1 {
        return Err(AppError::validation("duplicate field".to_owned()));
    }
    let tag = match body.find_field("type") {
        Some(s) => match s {
            Scalar::Str(t) => t.clone(),
            _ => {
                return Err(AppError::validation("variant tag must be a string".to_owned()));
            },
        },
        None => {
            return Err(AppError::validation("missing variant tag".to_owned()));
        },
    };
    if str_eq(tag.as_str(), "aerobic") {
        let name = match get_str_field(body, "name") {
            Ok(v) => v,
            Err(e) => {
                return Err(e);
            },
        };
        let duration_min = match get_opt_num_field(body, "duration_min") {
            Ok(v) => v,
            Err(e) => {
                return Err(e);
            },
        };
        let distance = match get_opt_num_field(body, "distance") {
            Ok(v) => v,
            Err(e) => {
                return Err(e);
            },
        };
        Ok(ExerciseRequest::Aerobic(AerobicRequest { name, duration_min, distance }))
    } else if str_eq(tag.as_str(), "anaerobic") {
        let name = match get_str_field(body, "name") {
            Ok(v) => v,
            Err(e) => {
                return Err(e);
            },
        };
        let weight = match get_opt_num_field(body, "weight") {
            Ok(v) => v,
            Err(e) => {
                return Err(e);
            },
        };
        let sets = match get_opt_int_field(body, "sets") {
            Ok(v) => v,
            Err(e) => {
                return Err(e);
            },
        };
        let reps = match get_opt_int_field(body, "reps") {
            Ok(v) => v,
            Err(e) => {
                return Err(e);
            },
        };
        Ok(ExerciseRequest::Anaerobic(AnaerobicRequest { name, weight, sets, reps }))
    } else {
        Err(AppError::validation("unknown variant tag".to_owned()))
    }
}

/// The unauthenticated listing endpoint.
pub fn get_exercise_items(store: &ExerciseStore) -> (r: Listing)
    ensures
        r@ == exercise_items_listing(store@),
{
    store.list()
}

/// The add-item pipeline with the clock reading handed in: authorize,
/// decode by tag, persist into the tagged variant's family with the
/// server's date, reload, respond.
pub fn add_exercise_at(
    store: &mut ExerciseStore,
    cred: &CredentialStore,
    cookie: Option<&String>,
    body: &WireObj,
    now: i64,
) -> (r: Result<Listing, AppError>)
    requires
        old(store).wf(),
        old(store)@.next_aerobic_id < i64::MAX,
        old(store)@.next_anaerobic_id < i64::MAX,
    ensures
        final(store).wf(),
        !authorized(cookie_view(cookie), cred.secret()) ==> final(store)@ == old(store)@ && r
            is Err && r->Err_0.kind == ErrorKind::Authorization,
        authorized(cookie_view(cookie), cred.secret()) && exercise_req_of(body@) is Err
            ==> final(store)@ == old(store)@ && r is Err && r->Err_0.kind == ErrorKind::Validation,
        authorized(cookie_view(cookie), cred.secret()) && exercise_req_of(body@) is Ok
            && exercise_req_of(body@)->Ok_0 is Aerobic ==> ({
            let q = exercise_req_of(body@)->Ok_0->Aerobic_0;
            &&& final(store)@.aerobic == aero_insert(
                old(store)@.aerobic,
                AerobicModel {
                    id: old(store)@.next_aerobic_id,
                    name: q.name,
                    duration_min: q.duration_min,
                    distance: q.distance,
                    date: now as int,
                },
            )
            &&& final(store)@.next_aerobic_id == old(store)@.next_aerobic_id + 1
            &&& final(store)@.anaerobic == old(store)@.anaerobic
            &&& final(store)@.next_anaerobic_id == old(store)@.next_anaerobic_id
            &&& r is Ok
            &&& r->Ok_0@ == exercise_items_listing(final(store)@)
        }),
        authorized(cookie_view(cookie), cred.secret()) && exercise_req_of(body@) is Ok
            && exercise_req_of(body@)->Ok_0 is Anaerobic ==> ({
            let q = exercise_req_of(body@)->Ok_0->Anaerobic_0;
            &&& final(store)@.anaerobic == ana_insert(
                old(store)@.anaerobic,
                AnaerobicModel {
                    id: old(store)@.next_anaerobic_id,
                    name: q.name,
                    weight: q.weight,
                    sets: q.sets,
                    reps: q.reps,
                    date: now as int,
                },
            )
            &&& final(store)@.next_anaerobic_id == old(store)@.next_anaerobic_id + 1
            &&& final(store)@.aerobic == old(store)@.aerobic
            &&& final(store)@.next_aerobic_id == old(store)@.next_aerobic_id
            &&& r is Ok
            &&& r->Ok_0@ == exercise_items_listing(final(store)@)
        }),
{
    if let Err(e) = check_credential(cookie, cred) {
        return Err(e);
    }
    let req = match decode_exercise_request(body) {
        Ok(q) => q,
        Err(e) => {
            return Err(e);
        },
    };
    match req {
        ExerciseRequest::Aerobic(q) => {
            store.insert_aerobic(q.name, q.duration_min, q.distance, now);
        },
        ExerciseRequest::Anaerobic(q) => {
            store.insert_anaerobic(q.name, q.weight, q.sets, q.reps, now);
        },
    }
    Ok(store.list())
}

/// What a successful aerobic add leaves behind, for some clock reading.
pub open spec fn aerobic_added(
    pre: ExerciseStoreModel,
    post: ExerciseStoreModel,
    q: AerobicReqModel,
    ts: int,
) -> bool {
    &&& post.aerobic == aero_insert(
        pre.aerobic,
        AerobicModel {
            id: pre.next_aerobic_id,
            name: q.name,
            duration_min: q.duration_min,
            distance: q.distance,
            date: ts,
        },
    )
    &&& post.next_aerobic_id == pre.next_aerobic_id + 1
    &&& post.anaerobic == pre.anaerobic
    &&& post.next_anaerobic_id == pre.next_anaerobic_id
}

/// What a successful anaerobic add leaves behind, for some clock
/// reading.
pub open spec fn anaerobic_added(
    pre: ExerciseStoreModel,
    post: ExerciseStoreModel,
    q: AnaerobicReqModel,
    ts: int,
) -> bool {
    &&& post.anaerobic == ana_insert(
        pre.anaerobic,
        AnaerobicModel {
            id: pre.next_anaerobic_id,
            name: q.name,
            weight: q.weight,
            sets: q.sets,
            reps: q.reps,
            date: ts,
        },
    )
    &&& post.next_anaerobic_id == pre.next_anaerobic_id + 1
    &&& post.aerobic == pre.aerobic
    &&& post.next_aerobic_id == pre.next_aerobic_id
}

/// The add-item endpoint: reads the server clock itself; the stored
/// date is the server's, whatever the client sent.
pub fn add_exercise(
    store: &mut ExerciseStore,
    cred: &CredentialStore,
    cookie: Option<&String>,
    body: &WireObj,
) -> (r: Result<Listing, AppError>)
    requires
        old(store).wf(),
        old(store)@.next_aerobic_id < i64::MAX,
        old(store)@.next_anaerobic_id < i64::MAX,
    ensures
        final(store).wf(),
        !authorized(cookie_view(cookie), cred.secret()) ==> final(store)@ == old(store)@ && r
            is Err && r->Err_0.kind == ErrorKind::Authorization,
        authorized(cookie_view(cookie), cred.secret()) && exercise_req_of(body@) is Err
            ==> final(store)@ == old(store)@ && r is Err && r->Err_0.kind == ErrorKind::Validation,
        authorized(cookie_view(cookie), cred.secret()) && exercise_req_of(body@) is Ok
            && exercise_req_of(body@)->Ok_0 is Aerobic ==> r is Ok && exists|ts: int| #[trigger]
            aerobic_added(old(store)@, final(store)@, exercise_req_of(body@)->Ok_0->Aerobic_0, ts),
        authorized(cookie_view(cookie), cred.secret()) && exercise_req_of(body@) is Ok
            && exercise_req_of(body@)->Ok_0 is Anaerobic ==> r is Ok && exists|ts: int| #[trigger]
            anaerobic_added(
            old(store)@,
            final(store)@,
            exercise_req_of(body@)->Ok_0->Anaerobic_0,
            ts,
        ),
{
    if let Err(e) = check_credential(cookie, cred) {
        return Err(e);
    }
    let now = now_timestamp();
    let r = add_exercise_at(store, cred, cookie, body, now);
    proof {
        if authorized(cookie_view(cookie), cred.secret()) && exercise_req_of(body@) is Ok {
            if exercise_req_of(body@)->Ok_0 is Aerobic {
                assert(aerobic_added(
                    old(store)@,
                    store@,
                    exercise_req_of(body@)->Ok_0->Aerobic_0,
                    now as int,
                ));
            } else {
                assert(anaerobic_added(
                    old(store)@,
                    store@,
                    exercise_req_of(body@)->Ok_0->Anaerobic_0,
                    now as int,
                ));
            }
        }
    }
    r
}

/// A read-only aerobic template row.
pub struct AerobicTemplate {
    pub name: String,
    pub duration_min: Option<Number>,
    pub distance: Option<Number>,
}

/// The mathematical model of an `AerobicTemplate`.
pub struct AerobicTemplateModel {
    pub name: Seq<char>,
    pub duration_min: Option<NumV>,
    pub distance: Option<NumV>,
}

impl View for AerobicTemplate {
    type V = AerobicTemplateModel;

    open spec fn view(&self) -> AerobicTemplateModel {
        AerobicTemplateModel {
            name: self.name@,
            duration_min: opt_num_view(self.duration_min),
            distance: opt_num_view(self.distance),
        }
    }
}

/// A read-only anaerobic template row.
pub struct AnaerobicTemplate {
    pub name: String,
    pub weight: Option<Number>,
    pub sets: Option<i64>,
    pub reps: Option<i64>,
}

/// The mathematical model of an `AnaerobicTemplate`.
pub struct AnaerobicTemplateModel {
    pub name: Seq<char>,
    pub weight: Option<NumV>,
    pub sets: Option<int>,
    pub reps: Option<int>,
}

impl View for AnaerobicTemplate {
    type V = AnaerobicTemplateModel;

    open spec fn view(&self) -> AnaerobicTemplateModel {
        AnaerobicTemplateModel {
            name: self.name@,
            weight: opt_num_view(self.weight),
            sets: opt_int_view(self.sets),
            reps: opt_int_view(self.reps),
        }
    }
}

/// The untagged encoding of one aerobic template row.
pub open spec fn encode_aero_template(m: AerobicTemplateModel) -> Seq<(Seq<char>, SVal)> {
    seq![
        ("name"@, SVal::Str(m.name)),
        ("duration_min"@, num_sval(m.duration_min)),
        ("distance"@, num_sval(m.distance)),
    ]
}

/// The untagged encoding of one anaerobic template row.
pub open spec fn encode_ana_template(m: AnaerobicTemplateModel) -> Seq<(Seq<char>, SVal)> {
    seq![
        ("name"@, SVal::Str(m.name)),
        ("weight"@, num_sval(m.weight)),
        ("sets"@, int_sval(m.sets)),
        ("reps"@, int_sval(m.reps)),
    ]
}

/// The model of an exercise template store.
pub struct ExerciseTemplateStoreModel {
    pub aerobic: Seq<AerobicTemplateModel>,
    pub anaerobic: Seq<AnaerobicTemplateModel>,
}

/// The template listing: aerobic templates, then anaerobic, each in
/// arrival order.
pub open spec fn exercise_templates_listing(m: ExerciseTemplateStoreModel) -> ListingModel {
    ListingModel {
        key: "templates"@,
        rows: m.aerobic.map_values(|t: AerobicTemplateModel| encode_aero_template(t))
            + m.anaerobic.map_values(|t: AnaerobicTemplateModel| encode_ana_template(t)),
    }
}

/// The exercise template store: read-only reference rows, provisioned
/// at startup.
pub struct ExerciseTemplateStore {
    aerobic: Vec<AerobicTemplate>,
    anaerobic: Vec<AnaerobicTemplate>,
}

impl View for ExerciseTemplateStore {
    type V = ExerciseTemplateStoreModel;

    closed spec fn view(&self) -> ExerciseTemplateStoreModel {
        ExerciseTemplateStoreModel {
            aerobic: self.aerobic@.map_values(|t: AerobicTemplate| t@),
            anaerobic: self.anaerobic@.map_values(|t: AnaerobicTemplate| t@),
        }
    }
}

impl ExerciseTemplateStore {
    /// An empty store.
    pub fn new() -> (r: ExerciseTemplateStore)
        ensures
            r@.aerobic == Seq::<AerobicTemplateModel>::empty(),
            r@.anaerobic == Seq::<AnaerobicTemplateModel>::empty(),
    {
        let r = ExerciseTemplateStore { aerobic: Vec::new(), anaerobic: Vec::new() };
        proof {
            assert(r@.aerobic =~= Seq::<AerobicTemplateModel>::empty());
            assert(r@.anaerobic =~= Seq::<AnaerobicTemplateModel>::empty());
        }
        r
    }

    /// Adds one aerobic reference row; this is the provisioning step,
    /// not part of the request pipelines.
    pub fn add_aerobic(&mut self, t: AerobicTemplate)
        ensures
            final(self)@.aerobic == old(self)@.aerobic.push(t@),
            final(self)@.anaerobic == old(self)@.anaerobic,
    {
        let ghost m = t@;
        self.aerobic.push(t);
        proof {
            assert(self@.aerobic =~= old(self)@.aerobic.push(m));
            assert(self@.anaerobic =~= old(self)@.anaerobic);
        }
    }

    /// Adds one anaerobic reference row.
    pub fn add_anaerobic(&mut self, t: AnaerobicTemplate)
        ensures
            final(self)@.anaerobic == old(self)@.anaerobic.push(t@),
            final(self)@.aerobic == old(self)@.aerobic,
    {
        let ghost m = t@;
        self.anaerobic.push(t);
        proof {
            assert(self@.anaerobic =~= old(self)@.anaerobic.push(m));
            assert(self@.aerobic =~= old(self)@.aerobic);
        }
    }

    /// Encodes the full template listing.
    pub fn list(&self) -> (r: Listing)
        ensures
            r@ == exercise_templates_listing(self@),
    {
        let ghost sa = self@.aerobic;
        let ghost sb = self@.anaerobic;
        let mut rows: Vec<WireObj> = Vec::new();
        let mut i: usize = 0;
        while i < self.aerobic.len()
            invariant
                i <= self.aerobic.len(),
                sa == self@.aerobic,
                sb == self@.anaerobic,
                self.aerobic@.len() == sa.len(),
                rows@.len() == i,
                forall|k: int|
                    0 <= k < i ==> (#[trigger] rows@[k])@ == encode_aero_template(sa[k]),
            decreases self.aerobic.len() - i,
        {
            let t = &self.aerobic[i];
            let mut obj = WireObj::new();
            obj.push_field("name", Scalar::Str(t.name.clone()));
            obj.push_field("duration_min", num_scalar(&t.duration_min));
            obj.push_field("distance", num_scalar(&t.distance));
            proof {
                assert(sa[i as int] == self.aerobic@[i as int]@);
                assert(obj@ =~= encode_aero_template(sa[i as int]));
            }
            rows.push(obj);
            i = i + 1;
        }
        let ghost na = sa.len();
        let mut j: usize = 0;
        while j < self.anaerobic.len()
            invariant
                j <= self.anaerobic.len(),
                sa == self@.aerobic,
                sb == self@.anaerobic,
                self.anaerobic@.len() == sb.len(),
                na == sa.len(),
                rows@.len() == na + j,
                forall|k: int|
                    0 <= k < na ==> (#[trigger] rows@[k])@ == encode_aero_template(sa[k]),
                forall|k: int|
                    na <= k < rows@.len() ==> (#[trigger] rows@[k])@ == encode_ana_template(
                        sb[k - na],
                    ),
            decreases self.anaerobic.len() - j,
        {
            let t = &self.anaerobic[j];
            let mut obj = WireObj::new();
            obj.push_field("name", Scalar::Str(t.name.clone()));
            obj.push_field("weight", num_scalar(&t.weight));
            obj.push_field("sets", int_scalar(&t.sets));
            obj.push_field("reps", int_scalar(&t.reps));
            proof {
                assert(sb[j as int] == self.anaerobic@[j as int]@);
                assert(obj@ =~= encode_ana_template(sb[j as int]));
            }
            rows.push(obj);
            j = j + 1;
        }
        let r = Listing { key: "templates".to_owned(), rows };
        proof {
            assert(r@.rows =~= exercise_templates_listing(self@).rows);
        }
        r
    }
}

/// The unauthenticated template listing endpoint.
pub fn get_exercise_templates(store: &ExerciseTemplateStore) -> (r: Listing)
    ensures
        r@ == exercise_templates_listing(store@),
{
    store.list()
}

/// A tagged input carrying the same name, duration and distance as an
/// encoded aerobic row: the discriminator, then the row's own optional
/// fields exactly as the encoder wrote them.
pub open spec fn aerobic_tagged_input(m: AerobicModel) -> Seq<(Seq<char>, SVal)> {
    seq![("type"@, SVal::Str("aerobic"@))] + encode_aerobic(m).subrange(1, 4)
}

/// Round-trip law: encoding a stored aerobic row and decoding the
/// structurally equivalent tagged input is loss-less for the name and
/// for every populated optional field.
pub proof fn lemma_aerobic_round_trip(m: AerobicModel)
    ensures
        exercise_req_of(aerobic_tagged_input(m)) == Ok::<ExerciseReqV, ()>(
            ExerciseReqV::Aerobic(
                AerobicReqModel {
                    name: m.name,
                    duration_min: m.duration_min,
                    distance: m.distance,
                },
            ),
        ),
{
    reveal_strlit("type");
    reveal_strlit("name");
    reveal_strlit("duration_min");
    reveal_strlit("distance");
    reveal_strlit("aerobic");
    reveal_strlit("anaerobic");
    reveal_strlit("id");
    reveal_strlit("date");
    let o = aerobic_tagged_input(m);
    let t0 = ("type"@, SVal::Str("aerobic"@));
    let t1 = ("name"@, SVal::Str(m.name));
    let t2 = ("duration_min"@, num_sval(m.duration_min));
    let t3 = ("distance"@, num_sval(m.distance));
    assert(o =~= seq![t0, t1, t2, t3]);
    let o1 = seq![t1, t2, t3];
    let o2 = seq![t2, t3];
    let o3 = seq![t3];
    assert(o.drop_first() =~= o1);
    assert(o1.drop_first() =~= o2);
    assert(o2.drop_first() =~= o3);
    assert(o3.drop_first() =~= Seq::<(Seq<char>, SVal)>::empty());
    assert("type"@ != "name"@) by {
        assert("type"@[0] != "name"@[0]);
    }
    assert("type"@ != "duration_min"@) by {
        assert("type"@.len() != "duration_min"@.len());
    }
    assert("type"@ != "distance"@) by {
        assert("type"@.len() != "distance"@.len());
    }
    assert("name"@ != "duration_min"@) by {
        assert("name"@.len() != "duration_min"@.len());
    }
    assert("name"@ != "distance"@) by {
        assert("name"@.len() != "distance"@.len());
    }
    assert("duration_min"@ != "distance"@) by {
        assert("duration_min"@.len() != "distance"@.len());
    }
    reveal_with_fuel(key_count, 6);
    reveal_with_fuel(lookup, 6);
    assert(key_count(o, "type"@) == 1);
    assert(key_count(o, "name"@) == 1);
    assert(key_count(o, "duration_min"@) == 1);
    assert(key_count(o, "distance"@) == 1);
    assert(lookup(o, "type"@) == Some(SVal::Str("aerobic"@)));
    assert(lookup(o, "name"@) == Some(SVal::Str(m.name)));
    assert(lookup(o, "duration_min"@) == Some(num_sval(m.duration_min)));
    assert(lookup(o, "distance"@) == Some(num_sval(m.distance)));
    assert(str_field(o, "name"@) == Ok::<Seq<char>, ()>(m.name));
    assert(opt_num_field(o, "duration_min"@) == Ok::<Option<NumV>, ()>(m.duration_min));
    assert(opt_num_field(o, "distance"@) == Ok::<Option<NumV>, ()>(m.distance));
}

/// An input whose discriminator names no known variant fails to
/// decode, whatever the other fields hold.
pub proof fn lemma_unknown_tag_rejected(o: Seq<(Seq<char>, SVal)>, t: Seq<char>)
    requires
        field_of(o, "type"@) == Ok::<Option<SVal>, ()>(Some(SVal::Str(t))),
        t != "aerobic"@,
        t != "anaerobic"@,
    ensures
        exercise_req_of(o) is Err,
{
}

/// Listing idempotence law: two listings of one store state are the
/// same ordered sequence.
pub proof fn lemma_exercise_listing_idempotent(
    m: ExerciseStoreModel,
    l1: ListingModel,
    l2: ListingModel,
)
    requires
        l1 == exercise_items_listing(m),
        l2 == exercise_items_listing(m),
    ensures
        l1 == l2,
{
}

/// Placing an aerobic row at the first position it precedes is the
/// sorted insert.
proof fn lemma_aero_insert_at(rows: Seq<AerobicModel>, m: AerobicModel, p: int)
    requires
        0 <= p <= rows.len(),
        forall|j: int| 0 <= j < p ==> !aero_precedes(m, #[trigger] rows[j]),
        p < rows.len() ==> aero_precedes(m, rows[p]),
    ensures
        aero_insert(rows, m) == rows.insert(p, m),
    decreases p,
{
    if p == 0 {
        assert(aero_insert(rows, m) =~= rows.insert(0, m));
    } else {
        let tail = rows.drop_first();
        assert(forall|j: int| 0 <= j < tail.len() ==> #[trigger] tail[j] == rows[j + 1]);
        lemma_aero_insert_at(tail, m, p - 1);
        assert(aero_insert(rows, m) == seq![rows[0]] + tail.insert(p - 1, m));
        assert(seq![rows[0]] + tail.insert(p - 1, m) =~= rows.insert(p, m));
    }
}

/// Placing an anaerobic row at the first position it precedes is the
/// sorted insert.
proof fn lemma_ana_insert_at(rows: Seq<AnaerobicModel>, m: AnaerobicModel, p: int)
    requires
        0 <= p <= rows.len(),
        forall|j: int| 0 <= j < p ==> !ana_precedes(m, #[trigger] rows[j]),
        p < rows.len() ==> ana_precedes(m, rows[p]),
    ensures
        ana_insert(rows, m) == rows.insert(p, m),
    decreases p,
{
    if p == 0 {
        assert(ana_insert(rows, m) =~= rows.insert(0, m));
    } else {
        let tail = rows.drop_first();
        assert(forall|j: int| 0 <= j < tail.len() ==> #[trigger] tail[j] == rows[j + 1]);
        lemma_ana_insert_at(tail, m, p - 1);
        assert(ana_insert(rows, m) == seq![rows[0]] + tail.insert(p - 1, m));
        assert(seq![rows[0]] + tail.insert(p - 1, m) =~= rows.insert(p, m));
    }
}

} // verus!
