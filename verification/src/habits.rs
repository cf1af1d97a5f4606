//! The habit service: calendar-day records with an undo.
//!
//! A habit row carries a client-chosen calendar day and the server's
//! insert-time clock value.  The listing shows only rows whose day falls
//! within a trailing seven-day window, ordered by day and then by update
//! time, both descending.  The only delete is an undo of the single
//! most-recently-updated row — by update time, never by day.

use crate::auth::{authorized, check_credential, cookie_view};
use crate::clock::{clock_in_range, day_string_of, format_day, now_timestamp, DAY_FORMAT_BOUND,
    HABIT_WINDOW_SECONDS};
use crate::credential::CredentialStore;
use crate::error::{AppError, ErrorKind};
use crate::text::{lemma_lex_cmp_antisym, lemma_lex_cmp_trans, lex_cmp, str_cmp, Rel};
use crate::wire::{field_of, get_str_field, Listing, ListingModel, SVal, Scalar, WireObj};
use vstd::prelude::*;

verus! {

/// A stored habit row.
pub struct Habit {
    pub id: i64,
    pub name: String,
    pub date: String,
    pub updated_at: i64,
}

/// The mathematical model of a `Habit`.
pub struct HabitModel {
    pub id: int,
    pub name: Seq<char>,
    pub date: Seq<char>,
    pub updated_at: int,
}

impl View for Habit {
    type V = HabitModel;

    open spec fn view(&self) -> HabitModel {
        HabitModel {
            id: self.id as int,
            name: self.name@,
            date: self.date@,
            updated_at: self.updated_at as int,
        }
    }
}

/// Listing order: by day descending, then update time descending, ties
/// broken towards the later insert.
pub open spec fn habit_precedes(a: HabitModel, b: HabitModel) -> bool {
    ||| lex_cmp(a.date, b.date) > 0
    ||| (lex_cmp(a.date, b.date) == 0 && (a.updated_at > b.updated_at || (a.updated_at
        == b.updated_at && a.id > b.id)))
}

/// Undo order: `a` was updated more recently than `b`, ties broken
/// towards the later insert.
pub open spec fn more_recent(a: HabitModel, b: HabitModel) -> bool {
    a.updated_at > b.updated_at || (a.updated_at == b.updated_at && a.id > b.id)
}

/// Well-formed store contents: rows in listing order, ids distinct,
/// positive and below the next id to be assigned.
pub open spec fn habit_rows_wf(rows: Seq<HabitModel>, next_id: int) -> bool {
    &&& forall|i: int, j: int|
        0 <= i < j < rows.len() ==> habit_precedes(#[trigger] rows[i], #[trigger] rows[j])
    &&& forall|i: int, j: int|
        0 <= i < j < rows.len() ==> (#[trigger] rows[i]).id != (#[trigger] rows[j]).id
    &&& forall|i: int| 0 <= i < rows.len() ==> 0 < (#[trigger] rows[i]).id < next_id
}

/// Listing order is transitive.
pub proof fn lemma_habit_precedes_trans(a: HabitModel, b: HabitModel, c: HabitModel)
    requires
        habit_precedes(a, b),
        habit_precedes(b, c),
    ensures
        habit_precedes(a, c),
{
    lemma_lex_cmp_antisym(a.date, b.date);
    lemma_lex_cmp_antisym(b.date, c.date);
    lemma_lex_cmp_antisym(a.date, c.date);
    lemma_lex_cmp_trans(c.date, b.date, a.date);
}

/// Two rows with distinct ids are ordered one way or the other.
pub proof fn lemma_habit_precedes_total(a: HabitModel, b: HabitModel)
    requires
        a.id != b.id,
    ensures
        habit_precedes(a, b) || habit_precedes(b, a),
{
    lemma_lex_cmp_antisym(a.date, b.date);
}

/// Where a new row lands: before the first stored row it precedes.
pub open spec fn habit_insert(rows: Seq<HabitModel>, m: HabitModel) -> Seq<HabitModel>
    decreases rows.len(),
{
    if rows.len() == 0 {
        seq![m]
    } else if habit_precedes(m, rows[0]) {
        seq![m] + rows
    } else {
        seq![rows[0]] + habit_insert(rows.drop_first(), m)
    }
}

/// Inserting the row with the next id keeps the store well-formed; the
/// result holds exactly the old rows and the new one.
pub proof fn lemma_habit_insert_props(rows: Seq<HabitModel>, next_id: int, m: HabitModel)
    requires
        habit_rows_wf(rows, next_id),
        m.id == next_id,
        0 < next_id,
    ensures
        habit_rows_wf(habit_insert(rows, m), next_id + 1),
        habit_insert(rows, m).len() == rows.len() + 1,
        forall|k: int|
            0 <= k < habit_insert(rows, m).len() ==> (#[trigger] habit_insert(rows, m)[k]) == m
                || rows.contains(habit_insert(rows, m)[k]),
    decreases rows.len(),
{
    let res = habit_insert(rows, m);
    if rows.len() == 0 {
        assert(res =~= seq![m]);
    } else if habit_precedes(m, rows[0]) {
        assert(res =~= seq![m] + rows);
        assert forall|i: int, j: int| 0 <= i < j < res.len() implies habit_precedes(
            #[trigger] res[i],
            #[trigger] res[j],
        ) by {
            if i == 0 {
                if j > 1 {
                    lemma_habit_precedes_trans(m, rows[0], rows[j - 1]);
                }
            }
        }
    } else {
        let tail = rows.drop_first();
        assert(habit_rows_wf(tail, next_id)) by {
            assert(forall|i: int| 0 <= i < tail.len() ==> #[trigger] tail[i] == rows[i + 1]);
        }
        lemma_habit_insert_props(tail, next_id, m);
        let rest = habit_insert(tail, m);
        assert(res =~= seq![rows[0]] + rest);
        lemma_habit_precedes_total(rows[0], m);
        assert(habit_precedes(rows[0], m));
        assert forall|k: int| 0 <= k < res.len() implies (#[trigger] res[k]) == m || rows.contains(
            res[k],
        ) by {
            if k == 0 {
                assert(rows[0] == res[k]);
            } else {
                assert(res[k] == rest[k - 1]);
                if rest[k - 1] == m {
                } else {
                    let j = choose|j: int| 0 <= j < tail.len() && tail[j] == rest[k - 1];
                    assert(rows[j + 1] == rest[k - 1]);
                }
            }
        }
        assert forall|i: int, j: int| 0 <= i < j < res.len() implies habit_precedes(
            #[trigger] res[i],
            #[trigger] res[j],
        ) by {
            if i == 0 {
                if res[j] == m {
                } else {
                    let e = res[j];
                    let x = choose|x: int| 0 <= x < tail.len() && tail[x] == e;
                    assert(habit_precedes(rows[0], rows[x + 1]));
                }
            }
        }
        assert forall|i: int, j: int| 0 <= i < j < res.len() implies (#[trigger] res[i]).id != (
        #[trigger] res[j]).id by {
            if i == 0 {
                if res[j] == m {
                } else {
                    let x = choose|x: int| 0 <= x < tail.len() && tail[x] == res[j];
                    assert(rows[0].id != rows[x + 1].id);
                }
            }
        }
    }
}

/// The index of the most recently updated row.
pub open spec fn undo_index(rows: Seq<HabitModel>) -> int
    decreases rows.len(),
{
    if rows.len() <= 1 {
        0
    } else {
        let rest = undo_index(rows.drop_first()) + 1;
        if more_recent(rows[0], rows[rest]) {
            0
        } else {
            rest
        }
    }
}

/// With distinct ids the undo target is the unique row every other row
/// is less recent than.
pub proof fn lemma_undo_index_max(rows: Seq<HabitModel>)
    requires
        rows.len() > 0,
        forall|i: int, j: int|
            0 <= i < j < rows.len() ==> (#[trigger] rows[i]).id != (#[trigger] rows[j]).id,
    ensures
        0 <= undo_index(rows) < rows.len(),
        forall|k: int|
            0 <= k < rows.len() && k != undo_index(rows) ==> more_recent(
                rows[undo_index(rows)],
                #[trigger] rows[k],
            ),
    decreases rows.len(),
{
    if rows.len() > 1 {
        let tail = rows.drop_first();
        assert(forall|i: int, j: int|
            0 <= i < j < tail.len() ==> (#[trigger] tail[i]).id != (#[trigger] tail[j]).id) by {
            assert(forall|i: int| 0 <= i < tail.len() ==> #[trigger] tail[i] == rows[i + 1]);
        }
        lemma_undo_index_max(tail);
        let rest = undo_index(tail) + 1;
        assert(tail[rest - 1] == rows[rest]);
        assert(forall|k: int| 1 <= k < rows.len() ==> #[trigger] rows[k] == tail[k - 1]);
        if more_recent(rows[0], rows[rest]) {
            assert forall|k: int| 0 <= k < rows.len() && k != 0 implies more_recent(
                rows[0],
                #[trigger] rows[k],
            ) by {
                if k != rest {
                    assert(more_recent(rows[rest], tail[k - 1]));
                }
            }
        } else {
            assert(rows[0].id != rows[rest].id);
            assert(more_recent(rows[rest], rows[0]));
        }
    }
}

/// The trailing window: rows whose day is at or after the cutoff day,
/// in their stored order.
pub open spec fn habit_window(rows: Seq<HabitModel>, cutoff: Seq<char>) -> Seq<HabitModel> {
    rows.filter(|m: HabitModel| lex_cmp(m.date, cutoff) >= 0)
}

/// The windowed rows keep the store's listing order, and each shown
/// row's day is at or after the cutoff.
pub proof fn lemma_habit_window_ordered(rows: Seq<HabitModel>, cutoff: Seq<char>)
    requires
        forall|i: int, j: int|
            0 <= i < j < rows.len() ==> habit_precedes(#[trigger] rows[i], #[trigger] rows[j]),
    ensures
        forall|i: int, j: int|
            0 <= i < j < habit_window(rows, cutoff).len() ==> habit_precedes(
                #[trigger] habit_window(rows, cutoff)[i],
                #[trigger] habit_window(rows, cutoff)[j],
            ),
        forall|k: int|
            0 <= k < habit_window(rows, cutoff).len() ==> lex_cmp(
                (#[trigger] habit_window(rows, cutoff)[k]).date,
                cutoff,
            ) >= 0,
        forall|k: int|
            0 <= k < habit_window(rows, cutoff).len() ==> exists|x: int|
                0 <= x < rows.len() && #[trigger] rows[x] == #[trigger] habit_window(
                    rows,
                    cutoff,
                )[k],
    decreases rows.len(),
{
    reveal(Seq::filter);
    let w = habit_window(rows, cutoff);
    if rows.len() > 0 {
        let prefix = rows.drop_last();
        assert(forall|i: int| 0 <= i < prefix.len() ==> #[trigger] prefix[i] == rows[i]);
        lemma_habit_window_ordered(prefix, cutoff);
        let wp = habit_window(prefix, cutoff);
        if lex_cmp(rows.last().date, cutoff) >= 0 {
            assert(w == wp.push(rows.last()));
            assert forall|k: int| 0 <= k < w.len() implies exists|x: int|
                0 <= x < rows.len() && #[trigger] rows[x] == #[trigger] w[k] by {
                if k < wp.len() {
                    let x = choose|x: int| 0 <= x < prefix.len() && #[trigger] prefix[x] == wp[k];
                    assert(rows[x] == w[k]);
                } else {
                    assert(rows[rows.len() - 1] == w[k]);
                }
            }
            assert forall|i: int, j: int| 0 <= i < j < w.len() implies habit_precedes(
                #[trigger] w[i],
                #[trigger] w[j],
            ) by {
                if j == w.len() - 1 {
                    let x = choose|x: int| 0 <= x < prefix.len() && #[trigger] prefix[x] == wp[i];
                    assert(habit_precedes(rows[x], rows.last()));
                }
            }
        } else {
            assert(w == wp);
            assert forall|k: int| 0 <= k < w.len() implies exists|x: int|
                0 <= x < rows.len() && #[trigger] rows[x] == #[trigger] w[k] by {
                let x = choose|x: int| 0 <= x < prefix.len() && #[trigger] prefix[x] == wp[k];
                assert(rows[x] == w[k]);
            }
        }
    } else {
        assert(w =~= Seq::<HabitModel>::empty());
    }
}

/// The untagged encoding of one habit row.
pub open spec fn encode_habit(m: HabitModel) -> Seq<(Seq<char>, SVal)> {
    seq![
        ("id"@, SVal::Int(m.id)),
        ("name"@, SVal::Str(m.name)),
        ("date"@, SVal::Str(m.date)),
        ("updated_at"@, SVal::Int(m.updated_at)),
    ]
}

/// The listing the service answers with: the windowed rows, encoded.
pub open spec fn habits_listing(rows: Seq<HabitModel>, cutoff: Seq<char>) -> ListingModel {
    ListingModel {
        key: "habits"@,
        rows: habit_window(rows, cutoff).map_values(|m: HabitModel| encode_habit(m)),
    }
}

/// What decoding an add-habit request body yields: the required `name`
/// and `date` fields, strings each appearing at most once.
pub open spec fn habit_req_of(o: Seq<(Seq<char>, SVal)>) -> Result<(Seq<char>, Seq<char>), ()> {
    match field_of(o, "name"@) {
        Err(()) => Err(()),
        Ok(nf) => match field_of(o, "date"@) {
            Err(()) => Err(()),
            Ok(df) => match (nf, df) {
                (Some(SVal::Str(n)), Some(SVal::Str(d))) => Ok((n, d)),
                _ => Err(()),
            },
        },
    }
}

/// The model of a habit store: rows in listing order, plus the next id.
pub struct HabitStoreModel {
    pub rows: Seq<HabitModel>,
    pub next_id: int,
}

/// The habit service's record store.
pub struct HabitStore {
    habits: Vec<Habit>,
    next_id: i64,
}

impl View for HabitStore {
    type V = HabitStoreModel;

    closed spec fn view(&self) -> HabitStoreModel {
        HabitStoreModel {
            rows: self.habits@.map_values(|h: Habit| h@),
            next_id: self.next_id as int,
        }
    }
}

/// Exec comparison in listing order.
fn habit_precedes_exec(a: &Habit, b: &Habit) -> (r: bool)
    ensures
        r == habit_precedes(a@, b@),
{
    match str_cmp(a.date.as_str(), b.date.as_str()) {
        Rel::Gt => true,
        Rel::Lt => false,
        Rel::Eq => a.updated_at > b.updated_at || (a.updated_at == b.updated_at && a.id > b.id),
    }
}

impl HabitStore {
    /// The store is well-formed.
    pub open spec fn wf(&self) -> bool {
        habit_rows_wf(self@.rows, self@.next_id) && 0 < self@.next_id <= i64::MAX
    }

    /// An empty store; ids start at one.
    pub fn new() -> (r: HabitStore)
        ensures
            r@.rows == Seq::<HabitModel>::empty(),
            r@.next_id == 1,
            r.wf(),
    {
        let r = HabitStore { habits: Vec::new(), next_id: 1 };
        proof {
            assert(r@.rows =~= Seq::<HabitModel>::empty());
        }
        r
    }

    /// Inserts one row at its place in listing order, assigning the next
    /// id; the single-statement insert of the store.
    pub fn insert(&mut self, name: String, date: String, updated_at: i64)
        requires
            old(self).wf(),
            old(self)@.next_id < i64::MAX,
        ensures
            final(self).wf(),
            final(self)@.next_id == old(self)@.next_id + 1,
            final(self)@.rows == habit_insert(
                old(self)@.rows,
                HabitModel {
                    id: old(self)@.next_id,
                    name: name@,
                    date: date@,
                    updated_at: updated_at as int,
                },
            ),
    {
        let ghost s = self@.rows;
        let row = Habit { id: self.next_id, name, date, updated_at };
        let ghost m = row@;
        let mut p: usize = 0;
        loop
            invariant
                p <= self.habits.len(),
                s == self@.rows,
                m == row@,
                self.habits@.len() == s.len(),
                self.habits@ == old(self).habits@,
                self.next_id == old(self).next_id,
                forall|j: int| 0 <= j < p ==> !habit_precedes(m, #[trigger] s[j]),
            ensures
                p <= self.habits.len(),
                self.habits@ == old(self).habits@,
                self.next_id == old(self).next_id,
                forall|j: int| 0 <= j < p ==> !habit_precedes(m, #[trigger] s[j]),
                p < self.habits.len() ==> habit_precedes(m, s[p as int]),
            decreases self.habits.len() - p,
        {
            if p == self.habits.len() {
                break;
            }
            proof {
                assert(s[p as int] == self.habits@[p as int]@);
            }
            if habit_precedes_exec(&row, &self.habits[p]) {
                break;
            }
            p = p + 1;
        }
        proof {
            lemma_habit_insert_at(s, m, p as int);
            lemma_habit_insert_props(s, self@.next_id, m);
        }
        self.habits.insert(p, row);
        self.next_id = self.next_id + 1;
        proof {
            assert(self@.rows =~= habit_insert(s, m));
        }
    }

    /// Deletes the single most-recently-updated row, if any; the undo.
    pub fn undo(&mut self)
        requires
            old(self).wf(),
        ensures
            final(self).wf(),
            final(self)@.next_id == old(self)@.next_id,
            old(self)@.rows.len() == 0 ==> final(self)@.rows == old(self)@.rows,
            old(self)@.rows.len() > 0 ==> final(self)@.rows == old(self)@.rows.remove(
                undo_index(old(self)@.rows),
            ),
    {
        let ghost s = self@.rows;
        if self.habits.len() == 0 {
            return ;
        }
        proof {
            lemma_undo_index_max(s);
        }
        let mut best: usize = 0;
        let mut j: usize = 1;
        while j < self.habits.len()
            invariant
                best < j <= self.habits.len(),
                s == self@.rows,
                habit_rows_wf(s, old(self)@.next_id),
                self.habits@.len() == s.len(),
                self.habits@ == old(self).habits@,
                self.next_id == old(self).next_id,
                forall|k: int| 0 <= k < j && k != best ==> more_recent(s[best as int], #[trigger] s[k]),
            decreases self.habits.len() - j,
        {
            proof {
                assert(s[j as int] == self.habits@[j as int]@);
                assert(s[best as int] == self.habits@[best as int]@);
            }
            let a = &self.habits[j];
            let b = &self.habits[best];
            if a.updated_at > b.updated_at || (a.updated_at == b.updated_at && a.id > b.id) {
                proof {
                    assert(more_recent(s[j as int], s[best as int]));
                    assert forall|k: int|
                        0 <= k < j as int + 1 && k != j as int implies more_recent(
                        s[j as int],
                        #[trigger] s[k],
                    ) by {
                        if k != best as int {
                            assert(more_recent(s[best as int], s[k]));
                        }
                    }
                }
                best = j;
            } else {
                proof {
                    assert(s[best as int].id != s[j as int].id);
                    assert(more_recent(s[best as int], s[j as int]));
                }
            }
            j = j + 1;
        }
        proof {
            let ui = undo_index(s);
            if best as int != ui {
                assert(more_recent(s[best as int], s[ui]));
                assert(more_recent(s[ui], s[best as int]));
                assert(false);
            }
        }
        self.habits.remove(best);
        proof {
            assert(self@.rows =~= s.remove(best as int));
            let r = s.remove(best as int);
            assert forall|i: int, j2: int| 0 <= i < j2 < r.len() implies habit_precedes(
                #[trigger] r[i],
                #[trigger] r[j2],
            ) && r[i].id != r[j2].id by {
                let i0 = if i < best as int {
                    i
                } else {
                    i + 1
                };
                let j0 = if j2 < best as int {
                    j2
                } else {
                    j2 + 1
                };
                assert(r[i] == s[i0] && r[j2] == s[j0]);
            }
            assert forall|i: int| 0 <= i < r.len() implies 0 < (#[trigger] r[i]).id
                < self@.next_id by {
                let i0 = if i < best as int {
                    i
                } else {
                    i + 1
                };
                assert(r[i] == s[i0]);
            }
        }
    }

    /// Whether another id can still be assigned; a caller outside the
    /// proofs tests this before an insert.
    pub fn id_capacity_left(&self) -> (r: bool)
        ensures
            r == (self@.next_id < i64::MAX),
    {
        self.next_id < i64::MAX
    }

    /// Encodes the windowed listing: rows at or after the cutoff day.
    pub fn list_since(&self, cutoff: &str) -> (r: Listing)
        ensures
            r@ == habits_listing(self@.rows, cutoff@),
    {
        let ghost s = self@.rows;
        let mut rows: Vec<WireObj> = Vec::new();
        let mut i: usize = 0;
        proof {
            reveal(Seq::filter);
            assert(s.take(0) =~= Seq::<HabitModel>::empty());
            assert(habit_window(s.take(0), cutoff@) =~= Seq::<HabitModel>::empty());
        }
        while i < self.habits.len()
            invariant
                i <= self.habits.len(),
                s == self@.rows,
                self.habits@.len() == s.len(),
                rows@.len() == habit_window(s.take(i as int), cutoff@).len(),
                forall|k: int|
                    0 <= k < rows@.len() ==> (#[trigger] rows@[k])@ == encode_habit(
                        habit_window(s.take(i as int), cutoff@)[k],
                    ),
            decreases self.habits.len() - i,
        {
            let keep = match str_cmp(self.habits[i].date.as_str(), cutoff) {
                Rel::Lt => false,
                _ => true,
            };
            proof {
                reveal(Seq::filter);
                assert(s.take(i as int + 1).drop_last() =~= s.take(i as int));
                assert(s.take(i as int + 1).last() == s[i as int]);
                assert(s[i as int] == self.habits@[i as int]@);
                if lex_cmp(s[i as int].date, cutoff@) >= 0 {
                    assert(habit_window(s.take(i as int + 1), cutoff@) =~= habit_window(
                        s.take(i as int),
                        cutoff@,
                    ).push(s[i as int]));
                } else {
                    assert(habit_window(s.take(i as int + 1), cutoff@) =~= habit_window(
                        s.take(i as int),
                        cutoff@,
                    ));
                }
            }
            if keep {
                let it = &self.habits[i];
                let mut obj = WireObj::new();
                obj.push_field("id", Scalar::Int(it.id));
                obj.push_field("name", Scalar::Str(it.name.clone()));
                obj.push_field("date", Scalar::Str(it.date.clone()));
                obj.push_field("updated_at", Scalar::Int(it.updated_at));
                proof {
                    assert(obj@ =~= encode_habit(s[i as int]));
                }
                rows.push(obj);
            }
            i = i + 1;
        }
        let r = Listing { key: "habits".to_owned(), rows };
        proof {
            assert(s.take(s.len() as int) =~= s);
            assert(r@.rows =~= habits_listing(s, cutoff@).rows);
        }
        r
    }
}

/// Placing a row at the first position it precedes is the sorted insert.
proof fn lemma_habit_insert_at(rows: Seq<HabitModel>, m: HabitModel, p: int)
    requires
        0 <= p <= rows.len(),
        forall|j: int| 0 <= j < p ==> !habit_precedes(m, #[trigger] rows[j]),
        p < rows.len() ==> habit_precedes(m, rows[p]),
    ensures
        habit_insert(rows, m) == rows.insert(p, m),
    decreases p,
{
    if p == 0 {
        if rows.len() == 0 {
            assert(habit_insert(rows, m) =~= rows.insert(0, m));
        } else {
            assert(habit_insert(rows, m) =~= rows.insert(0, m));
        }
    } else {
        let tail = rows.drop_first();
        assert(forall|j: int| 0 <= j < tail.len() ==> #[trigger] tail[j] == rows[j + 1]);
        lemma_habit_insert_at(tail, m, p - 1);
        assert(habit_insert(rows, m) == seq![rows[0]] + tail.insert(p - 1, m));
        assert(seq![rows[0]] + tail.insert(p - 1, m) =~= rows.insert(p, m));
    }
}

/// A read-only habit template row.
pub struct HabitTemplate {
    pub name: String,
    pub max_occurrences: Option<i64>,
}

/// The mathematical model of a `HabitTemplate`.
pub struct HabitTemplateModel {
    pub name: Seq<char>,
    pub max_occurrences: Option<int>,
}

impl View for HabitTemplate {
    type V = HabitTemplateModel;

    open spec fn view(&self) -> HabitTemplateModel {
        HabitTemplateModel {
            name: self.name@,
            max_occurrences: match self.max_occurrences {
                Some(n) => Some(n as int),
                None => None,
            },
        }
    }
}

/// Template listing order: by name, ascending.
pub open spec fn template_le(a: HabitTemplateModel, b: HabitTemplateModel) -> bool {
    lex_cmp(a.name, b.name) <= 0
}

/// Where a new template lands: before the first stored row whose name
/// orders strictly after it, so equal names keep their arrival order.
pub open spec fn template_insert(
    rows: Seq<HabitTemplateModel>,
    m: HabitTemplateModel,
) -> Seq<HabitTemplateModel>
    decreases rows.len(),
{
    if rows.len() == 0 {
        seq![m]
    } else if lex_cmp(m.name, rows[0].name) < 0 {
        seq![m] + rows
    } else {
        seq![rows[0]] + template_insert(rows.drop_first(), m)
    }
}

/// Template rows stand in name order.
pub open spec fn template_rows_ordered(rows: Seq<HabitTemplateModel>) -> bool {
    forall|i: int, j: int|
        0 <= i < j < rows.len() ==> template_le(#[trigger] rows[i], #[trigger] rows[j])
}

/// The sorted insert keeps template rows ordered, and adds exactly the
/// new row.
pub proof fn lemma_template_insert_props(rows: Seq<HabitTemplateModel>, m: HabitTemplateModel)
    requires
        template_rows_ordered(rows),
    ensures
        template_rows_ordered(template_insert(rows, m)),
        template_insert(rows, m).len() == rows.len() + 1,
    decreases rows.len(),
{
    let res = template_insert(rows, m);
    if rows.len() == 0 {
        assert(res =~= seq![m]);
    } else if lex_cmp(m.name, rows[0].name) < 0 {
        assert(res =~= seq![m] + rows);
        assert forall|i: int, j: int| 0 <= i < j < res.len() implies template_le(
            #[trigger] res[i],
            #[trigger] res[j],
        ) by {
            if i == 0 && j >= 1 {
                lemma_lex_cmp_antisym(m.name, rows[0].name);
                if j > 1 {
                    lemma_lex_cmp_trans(m.name, rows[0].name, rows[j - 1].name);
                }
            }
        }
    } else {
        let tail = rows.drop_first();
        assert(template_rows_ordered(tail)) by {
            assert(forall|i: int| 0 <= i < tail.len() ==> #[trigger] tail[i] == rows[i + 1]);
        }
        lemma_template_insert_props(tail, m);
        let rest = template_insert(tail, m);
        assert(res =~= seq![rows[0]] + rest);
        lemma_lex_cmp_antisym(m.name, rows[0].name);
        assert(template_le(rows[0], m));
        assert forall|k: int| 0 <= k < rest.len() implies template_le(
            rows[0],
            #[trigger] rest[k],
        ) by {
            lemma_template_insert_member(tail, m, k);
            if rest[k] == m {
            } else {
                let x = choose|x: int| 0 <= x < tail.len() && tail[x] == rest[k];
                assert(template_le(rows[0], rows[x + 1]));
            }
        }
        assert forall|i: int, j: int| 0 <= i < j < res.len() implies template_le(
            #[trigger] res[i],
            #[trigger] res[j],
        ) by {
            if i == 0 {
                assert(res[j] == rest[j - 1]);
            }
        }
    }
}

/// Every row of the sorted insert is the new row or one of the old.
pub proof fn lemma_template_insert_member(
    rows: Seq<HabitTemplateModel>,
    m: HabitTemplateModel,
    k: int,
)
    requires
        0 <= k < template_insert(rows, m).len(),
    ensures
        template_insert(rows, m)[k] == m || exists|x: int|
            0 <= x < rows.len() && rows[x] == template_insert(rows, m)[k],
    decreases rows.len(),
{
    let res = template_insert(rows, m);
    if rows.len() == 0 {
    } else if lex_cmp(m.name, rows[0].name) < 0 {
        if k > 0 {
            assert(res[k] == rows[k - 1]);
        }
    } else {
        let tail = rows.drop_first();
        if k == 0 {
            assert(res[0] == rows[0]);
        } else {
            lemma_template_insert_member(tail, m, k - 1);
            assert(res[k] == template_insert(tail, m)[k - 1]);
            if template_insert(tail, m)[k - 1] != m {
                let x = choose|x: int|
                    0 <= x < tail.len() && tail[x] == template_insert(tail, m)[k - 1];
                assert(rows[x + 1] == res[k]);
            }
        }
    }
}

/// The habit template store: read-only reference rows kept in name
/// order, provisioned at startup.
pub struct HabitTemplateStore {
    templates: Vec<HabitTemplate>,
}

impl View for HabitTemplateStore {
    type V = Seq<HabitTemplateModel>;

    closed spec fn view(&self) -> Seq<HabitTemplateModel> {
        self.templates@.map_values(|t: HabitTemplate| t@)
    }
}

/// The untagged encoding of one habit template row.
pub open spec fn encode_habit_template(m: HabitTemplateModel) -> Seq<(Seq<char>, SVal)> {
    seq![
        ("name"@, SVal::Str(m.name)),
        (
            "max_occurrences"@,
            match m.max_occurrences {
                Some(n) => SVal::Int(n),
                None => SVal::Null,
            },
        ),
    ]
}

/// The template listing: every row, encoded, in name order.
pub open spec fn habit_templates_listing(rows: Seq<HabitTemplateModel>) -> ListingModel {
    ListingModel {
        key: "templates"@,
        rows: rows.map_values(|m: HabitTemplateModel| encode_habit_template(m)),
    }
}

impl HabitTemplateStore {
    /// The rows stand in name order.
    pub open spec fn wf(&self) -> bool {
        template_rows_ordered(self@)
    }

    /// An empty store.
    pub fn new() -> (r: HabitTemplateStore)
        ensures
            r@ == Seq::<HabitTemplateModel>::empty(),
            r.wf(),
    {
        let r = HabitTemplateStore { templates: Vec::new() };
        proof {
            assert(r@ =~= Seq::<HabitTemplateModel>::empty());
        }
        r
    }

    /// Adds one reference row at its place in name order; this is the
    /// provisioning step, not part of the request pipelines.
    pub fn add(&mut self, name: String, max_occurrences: Option<i64>)
        requires
            old(self).wf(),
        ensures
            final(self).wf(),
            final(self)@ == template_insert(
                old(self)@,
                HabitTemplateModel {
                    name: name@,
                    max_occurrences: match max_occurrences {
                        Some(n) => Some(n as int),
                        None => None,
                    },
                },
            ),
    {
        let ghost s = self@;
        let row = HabitTemplate { name, max_occurrences };
        let ghost m = row@;
        let mut p: usize = 0;
        loop
            invariant
                p <= self.templates.len(),
                s == self@,
                m == row@,
                self.templates@.len() == s.len(),
                self.templates@ == old(self).templates@,
                forall|j: int| 0 <= j < p ==> lex_cmp(m.name, (#[trigger] s[j]).name) >= 0,
            ensures
                p <= self.templates.len(),
                self.templates@ == old(self).templates@,
                forall|j: int| 0 <= j < p ==> lex_cmp(m.name, (#[trigger] s[j]).name) >= 0,
                p < self.templates.len() ==> lex_cmp(m.name, s[p as int].name) < 0,
            decreases self.templates.len() - p,
        {
            if p == self.templates.len() {
                break;
            }
            proof {
                assert(s[p as int] == self.templates@[p as int]@);
            }
            if matches!(str_cmp(row.name.as_str(), self.templates[p].name.as_str()), Rel::Lt) {
                break;
            }
            p = p + 1;
        }
        proof {
            lemma_template_insert_at(s, m, p as int);
            lemma_template_insert_props(s, m);
        }
        self.templates.insert(p, row);
        proof {
            assert(self@ =~= template_insert(s, m));
        }
    }

    /// Encodes the full template listing.
    pub fn list(&self) -> (r: Listing)
        ensures
            r@ == habit_templates_listing(self@),
    {
        let mut rows: Vec<WireObj> = Vec::new();
        let mut i: usize = 0;
        while i < self.templates.len()
            invariant
                i <= self.templates.len(),
                rows@.len() == i,
                forall|j: int|
                    0 <= j < i ==> (#[trigger] rows@[j])@ == encode_habit_template(self@[j]),
                self@.len() == self.templates@.len(),
            decreases self.templates.len() - i,
        {
            let t = &self.templates[i];
            let mut obj = WireObj::new();
            obj.push_field("name", Scalar::Str(t.name.clone()));
            match t.max_occurrences {
                Some(n) => obj.push_field("max_occurrences", Scalar::Int(n)),
                None => obj.push_field("max_occurrences", Scalar::Null),
            }
            proof {
                assert(obj@ =~= encode_habit_template(self@[i as int]));
            }
            rows.push(obj);
            i = i + 1;
        }
        let r = Listing { key: "templates".to_owned(), rows };
        proof {
            assert(r@.rows =~= habit_templates_listing(self@).rows);
        }
        r
    }
}

/// Placing a template at the first position whose name orders strictly
/// after it is the sorted insert.
proof fn lemma_template_insert_at(rows: Seq<HabitTemplateModel>, m: HabitTemplateModel, p: int)
    requires
        0 <= p <= rows.len(),
        forall|j: int| 0 <= j < p ==> lex_cmp(m.name, (#[trigger] rows[j]).name) >= 0,
        p < rows.len() ==> lex_cmp(m.name, rows[p].name) < 0,
    ensures
        template_insert(rows, m) == rows.insert(p, m),
    decreases p,
{
    if p == 0 {
        assert(template_insert(rows, m) =~= rows.insert(0, m));
    } else {
        let tail = rows.drop_first();
        assert(forall|j: int| 0 <= j < tail.len() ==> #[trigger] tail[j] == rows[j + 1]);
        lemma_template_insert_at(tail, m, p - 1);
        assert(template_insert(rows, m) == seq![rows[0]] + tail.insert(p - 1, m));
        assert(seq![rows[0]] + tail.insert(p - 1, m) =~= rows.insert(p, m));
    }
}

/// The cutoff day: the calendar day seven days before the clock.
pub open spec fn cutoff_day(now: int) -> Seq<char> {
    day_string_of(now - HABIT_WINDOW_SECONDS)
}

/// Decodes an add-habit request body.
pub fn decode_habit_request(body: &WireObj) -> (r: Result<(String, String), AppError>)
    ensures
        match r {
            Ok(p) => habit_req_of(body@) == Ok::<(Seq<char>, Seq<char>), ()>((p.0@, p.1@)),
            Err(e) => habit_req_of(body@) is Err && e.kind == ErrorKind::Validation,
        },
{
    let name = match get_str_field(body, "name") {
        Ok(n) => n,
        Err(e) => {
            return Err(e);
        },
    };
    let date = match get_str_field(body, "date") {
        Ok(d) => d,
        Err(e) => {
            return Err(e);
        },
    };
    Ok((name, date))
}

/// The unauthenticated listing at a given clock reading.
pub fn get_habits_at(store: &HabitStore, now: i64) -> (r: Listing)
    requires
        clock_in_range(now as int),
    ensures
        r@ == habits_listing(store@.rows, cutoff_day(now as int)),
{
    let cutoff = format_day(now - HABIT_WINDOW_SECONDS);
    store.list_since(cutoff.as_str())
}

/// The unauthenticated listing endpoint: reads the server clock itself,
/// and fails only when the clock is outside the calendar range.
pub fn get_habits(store: &HabitStore) -> (r: Result<Listing, AppError>)
    ensures
        r is Ok ==> exists|ts: int| #[trigger]
            clock_in_range(ts) && r->Ok_0@ == habits_listing(store@.rows, cutoff_day(ts)),
        r is Err ==> r->Err_0.kind == ErrorKind::Configuration,
{
    let now = now_timestamp();
    if now < -DAY_FORMAT_BOUND + HABIT_WINDOW_SECONDS || now > DAY_FORMAT_BOUND {
        return Err(AppError::configuration("server clock out of calendar range".to_owned()));
    }
    let l = get_habits_at(store, now);
    proof {
        assert(clock_in_range(now as int) && l@ == habits_listing(
            store@.rows,
            cutoff_day(now as int),
        ));
    }
    Ok(l)
}

/// The add-habit pipeline with the clock reading handed in: authorize,
/// decode, persist with the server's update time, reload, respond.
pub fn add_habit_at(
    store: &mut HabitStore,
    cred: &CredentialStore,
    cookie: Option<&String>,
    body: &WireObj,
    now: i64,
) -> (r: Result<Listing, AppError>)
    requires
        old(store).wf(),
        old(store)@.next_id < i64::MAX,
        clock_in_range(now as int),
    ensures
        final(store).wf(),
        !authorized(cookie_view(cookie), cred.secret()) ==> final(store)@ == old(store)@ && r
            is Err && r->Err_0.kind == ErrorKind::Authorization,
        authorized(cookie_view(cookie), cred.secret()) && habit_req_of(body@) is Err ==> final(store)@
            == old(store)@ && r is Err && r->Err_0.kind == ErrorKind::Validation,
        authorized(cookie_view(cookie), cred.secret()) && habit_req_of(body@) is Ok ==> ({
            &&& final(store)@.next_id == old(store)@.next_id + 1
            &&& final(store)@.rows == habit_insert(
                old(store)@.rows,
                HabitModel {
                    id: old(store)@.next_id,
                    name: habit_req_of(body@)->Ok_0.0,
                    date: habit_req_of(body@)->Ok_0.1,
                    updated_at: now as int,
                },
            )
            &&& r is Ok
            &&& r->Ok_0@ == habits_listing(final(store)@.rows, cutoff_day(now as int))
        }),
{
    if let Err(e) = check_credential(cookie, cred) {
        return Err(e);
    }
    let (name, date) = match decode_habit_request(body) {
        Ok(p) => p,
        Err(e) => {
            return Err(e);
        },
    };
    store.insert(name, date, now);
    Ok(get_habits_at(store, now))
}

/// What a successful add leaves behind, for some clock reading.
pub open spec fn habit_added(
    pre: HabitStoreModel,
    post: HabitStoreModel,
    name: Seq<char>,
    date: Seq<char>,
    ts: int,
) -> bool {
    &&& post.next_id == pre.next_id + 1
    &&& post.rows == habit_insert(
        pre.rows,
        HabitModel { id: pre.next_id, name, date, updated_at: ts },
    )
}

/// The add-habit endpoint: reads the server clock itself.
pub fn add_habit(
    store: &mut HabitStore,
    cred: &CredentialStore,
    cookie: Option<&String>,
    body: &WireObj,
) -> (r: Result<Listing, AppError>)
    requires
        old(store).wf(),
        old(store)@.next_id < i64::MAX,
    ensures
        final(store).wf(),
        !authorized(cookie_view(cookie), cred.secret()) ==> final(store)@ == old(store)@ && r
            is Err && r->Err_0.kind == ErrorKind::Authorization,
        authorized(cookie_view(cookie), cred.secret()) && habit_req_of(body@) is Err ==> final(store)@
            == old(store)@ && r is Err && r->Err_0.kind == ErrorKind::Validation,
        authorized(cookie_view(cookie), cred.secret()) && habit_req_of(body@) is Ok && r is Err
            ==> final(store)@ == old(store)@ && r->Err_0.kind == ErrorKind::Configuration,
        authorized(cookie_view(cookie), cred.secret()) && habit_req_of(body@) is Ok && r is Ok
            ==> exists|ts: int| #[trigger] habit_added(
            old(store)@,
            final(store)@,
            habit_req_of(body@)->Ok_0.0,
            habit_req_of(body@)->Ok_0.1,
            ts,
        ),
{
    if let Err(e) = check_credential(cookie, cred) {
        return Err(e);
    }
    if let Err(e) = decode_habit_request(body) {
        return Err(e);
    }
    let now = now_timestamp();
    if now < -DAY_FORMAT_BOUND + HABIT_WINDOW_SECONDS || now > DAY_FORMAT_BOUND {
        return Err(AppError::configuration("server clock out of calendar range".to_owned()));
    }
    let r = add_habit_at(store, cred, cookie, body, now);
    proof {
        if authorized(cookie_view(cookie), cred.secret()) && habit_req_of(body@) is Ok {
            assert(habit_added(
                old(store)@,
                store@,
                habit_req_of(body@)->Ok_0.0,
                habit_req_of(body@)->Ok_0.1,
                now as int,
            ));
        }
    }
    r
}

/// The undo pipeline with the clock reading handed in: authorize, then
/// delete the single most-recently-updated row and answer with the
/// fresh windowed listing.
pub fn undo_last_at(
    store: &mut HabitStore,
    cred: &CredentialStore,
    cookie: Option<&String>,
    now: i64,
) -> (r: Result<Listing, AppError>)
    requires
        old(store).wf(),
        clock_in_range(now as int),
    ensures
        final(store).wf(),
        !authorized(cookie_view(cookie), cred.secret()) ==> final(store)@ == old(store)@ && r
            is Err && r->Err_0.kind == ErrorKind::Authorization,
        authorized(cookie_view(cookie), cred.secret()) ==> ({
            &&& final(store)@.next_id == old(store)@.next_id
            &&& (old(store)@.rows.len() == 0 ==> final(store)@.rows == old(store)@.rows)
            &&& (old(store)@.rows.len() > 0 ==> final(store)@.rows == old(store)@.rows.remove(
                undo_index(old(store)@.rows),
            ))
            &&& r is Ok
            &&& r->Ok_0@ == habits_listing(final(store)@.rows, cutoff_day(now as int))
        }),
{
    if let Err(e) = check_credential(cookie, cred) {
        return Err(e);
    }
    store.undo();
    Ok(get_habits_at(store, now))
}

/// The undo endpoint: reads the server clock itself.
pub fn undo_last(
    store: &mut HabitStore,
    cred: &CredentialStore,
    cookie: Option<&String>,
) -> (r: Result<Listing, AppError>)
    requires
        old(store).wf(),
    ensures
        final(store).wf(),
        !authorized(cookie_view(cookie), cred.secret()) ==> final(store)@ == old(store)@ && r
            is Err && r->Err_0.kind == ErrorKind::Authorization,
        authorized(cookie_view(cookie), cred.secret()) && r is Err ==> final(store)@
            == old(store)@ && r->Err_0.kind == ErrorKind::Configuration,
        authorized(cookie_view(cookie), cred.secret()) && r is Ok ==> ({
            &&& final(store)@.next_id == old(store)@.next_id
            &&& (old(store)@.rows.len() == 0 ==> final(store)@.rows == old(store)@.rows)
            &&& (old(store)@.rows.len() > 0 ==> final(store)@.rows == old(store)@.rows.remove(
                undo_index(old(store)@.rows),
            ))
        }),
{
    if let Err(e) = check_credential(cookie, cred) {
        return Err(e);
    }
    let now = now_timestamp();
    if now < -DAY_FORMAT_BOUND + HABIT_WINDOW_SECONDS || now > DAY_FORMAT_BOUND {
        return Err(AppError::configuration("server clock out of calendar range".to_owned()));
    }
    undo_last_at(store, cred, cookie, now)
}

/// Listing idempotence law: two listings of one store state, windowed
/// at one clock instant, are the same ordered sequence.
pub proof fn lemma_habits_listing_idempotent(
    rows: Seq<HabitModel>,
    cutoff: Seq<char>,
    l1: ListingModel,
    l2: ListingModel,
)
    requires
        l1 == habits_listing(rows, cutoff),
        l2 == habits_listing(rows, cutoff),
    ensures
        l1 == l2,
{
}

/// The unauthenticated template listing endpoint.
pub fn get_habit_templates(store: &HabitTemplateStore) -> (r: Listing)
    ensures
        r@ == habit_templates_listing(store@),
{
    store.list()
}

} // verus!
