use std::collections::HashMap;
use vstd::prelude::*;

use crate::date::is_business_day_number;
use crate::date::AppDate;
use crate::date::MAX_DAY;
use crate::date::MIN_DAY;
use crate::engineer::Engineer;
use crate::engineer::EngineerView;
use crate::error::DomainError;
use crate::error::DomainErrorKind;
use crate::rota::reference_day;
use crate::rota::resolution_error;
use crate::rota::rotation_length;
use crate::rota::Rota;

verus! {

broadcast use vstd::std_specs::hash::group_hash_axioms;

/// What a department is: its engineers in order, the dates reserved for
/// an engineer, and the length of its rotation.
pub ghost struct DepartmentView {
    pub engineers: Seq<EngineerView>,
    pub reservations: Map<int, EngineerView>,
    pub rota_length: int,
}

pub open spec fn engineer_views(engineers: Seq<Engineer>) -> Seq<EngineerView> {
    engineers.map_values(|e: Engineer| e@)
}

/// No two engineers last served on the same day.
pub open spec fn distinct_last_served(engineers: Seq<EngineerView>) -> bool {
    forall|i: int, j: int|
        0 <= i < engineers.len() && 0 <= j < engineers.len() && i != j
            ==> engineers[i].last_served != engineers[j].last_served
}

/// The reservations that a list of dated entries makes: a later entry for a
/// date replaces an earlier one.
pub open spec fn reservation_map(entries: Seq<(int, EngineerView)>) -> Map<int, EngineerView>
    decreases entries.len(),
{
    if entries.len() == 0 {
        Map::empty()
    } else {
        reservation_map(entries.drop_last()).insert(entries.last().0, entries.last().1)
    }
}

pub open spec fn reservation_entries(entries: Seq<(AppDate, Engineer)>) -> Seq<(int, EngineerView)> {
    entries.map_values(|entry: (AppDate, Engineer)| (entry.0@, entry.1@))
}

/// The reservations held in a map keyed by day number.
pub open spec fn reservation_view(m: Map<i32, Engineer>) -> Map<int, EngineerView> {
    Map::new(
        |d: int| i32::MIN <= d <= i32::MAX && m.contains_key(d as i32),
        |d: int| m[d as i32]@,
    )
}

/// The engineer whose last service fell on `day`, if there is one.
pub open spec fn last_served_on(engineers: Seq<EngineerView>, day: int) -> Option<EngineerView> {
    if exists|i: int| 0 <= i < engineers.len() && engineers[i].last_served == day {
        Some(engineers[choose|i: int| 0 <= i < engineers.len() && engineers[i].last_served == day])
    } else {
        None
    }
}

/// Who is on duty on `day`, as seen from `today`, or why that cannot be told:
/// a reservation for the day decides; else the rotation names the reference
/// date, and the engineer who last served then is on duty.
pub open spec fn serving_on(v: DepartmentView, day: int, today: int) -> Result<EngineerView, DomainErrorKind> {
    if v.reservations.contains_key(day) {
        Ok(v.reservations[day])
    } else {
        match resolution_error(day, today, v.rota_length) {
            Some(kind) => Err(kind),
            None => match last_served_on(v.engineers, reference_day(day, today, v.rota_length)) {
                Some(e) => Ok(e),
                None => Err(DomainErrorKind::NoEngineerFound),
            },
        }
    }
}

pub open spec fn has_identifier(engineers: Seq<EngineerView>, id: u128) -> bool {
    exists|i: int| 0 <= i < engineers.len() && engineers[i].identifier == id
}

/// `p` is the first position of an engineer with identity `id`.
pub open spec fn is_first_with_identifier(engineers: Seq<EngineerView>, id: u128, p: int) -> bool {
    &&& 0 <= p < engineers.len()
    &&& engineers[p].identifier == id
    &&& forall|j: int| 0 <= j < p ==> engineers[j].identifier != id
}

pub open spec fn index_of_identifier(engineers: Seq<EngineerView>, id: u128) -> int {
    choose|p: int| is_first_with_identifier(engineers, id, p)
}

/// The department after the engineer with identity `id` served on `day`, or
/// why that cannot be recorded: a weekend day, an unknown engineer, or a day
/// on which another engineer last served.
pub open spec fn service_recorded(v: DepartmentView, id: u128, day: int) -> Result<DepartmentView, DomainErrorKind> {
    if !is_business_day_number(day) {
        Err(DomainErrorKind::NotABusinessDay)
    } else if !has_identifier(v.engineers, id) {
        Err(DomainErrorKind::NoEngineerFound)
    } else {
        let p = index_of_identifier(v.engineers, id);
        if exists|j: int| 0 <= j < v.engineers.len() && j != p && v.engineers[j].last_served == day {
            Err(DomainErrorKind::DuplicateLastServedDate)
        } else {
            Ok(DepartmentView {
                engineers: v.engineers.update(p, EngineerView { last_served: day, ..v.engineers[p] }),
                ..v
            })
        }
    }
}

/// Where some engineer has identity `id`, a first one has it.
proof fn lemma_first_with_identifier(engineers: Seq<EngineerView>, id: u128, i: int)
    requires
        0 <= i < engineers.len(),
        engineers[i].identifier == id,
    ensures
        is_first_with_identifier(engineers, id, index_of_identifier(engineers, id)),
    decreases i,
{
    if exists|j: int| 0 <= j < i && engineers[j].identifier == id {
        let j = choose|j: int| 0 <= j < i && engineers[j].identifier == id;
        lemma_first_with_identifier(engineers, id, j);
    } else {
        assert(is_first_with_identifier(engineers, id, i));
    }
}

/// The department after each service of `records` in turn (an identity and a
/// day number), or the first reason one of them could not be recorded.
pub open spec fn services_recorded(v: DepartmentView, records: Seq<(u128, int)>) -> Result<
    DepartmentView,
    DomainErrorKind,
>
    decreases records.len(),
{
    if records.len() == 0 {
        Ok(v)
    } else {
        match services_recorded(v, records.drop_last()) {
            Ok(before) => service_recorded(before, records.last().0, records.last().1),
            Err(kind) => Err(kind),
        }
    }
}

/// Asking twice who is on duty on a date, with no service recorded in
/// between, names the same engineer.
pub proof fn lemma_serving_on_is_repeatable(
    v: DepartmentView,
    day: int,
    today: int,
    first: EngineerView,
    second: EngineerView,
)
    requires
        serving_on(v, day, today) == Ok::<EngineerView, DomainErrorKind>(first),
        serving_on(v, day, today) == Ok::<EngineerView, DomainErrorKind>(second),
    ensures
        first == second,
{
}

/// Once an engineer's service on a day is recorded, a query whose reference
/// date is that day names that engineer, unless the queried date is reserved.
pub proof fn lemma_recorded_service_is_found(
    v: DepartmentView,
    id: u128,
    service_day: int,
    after: DepartmentView,
    day: int,
    today: int,
)
    requires
        service_recorded(v, id, service_day) == Ok::<DepartmentView, DomainErrorKind>(after),
        !after.reservations.contains_key(day),
        resolution_error(day, today, after.rota_length) is None,
        reference_day(day, today, after.rota_length) == service_day,
    ensures
        serving_on(after, day, today) == Ok::<EngineerView, DomainErrorKind>(
            EngineerView { last_served: service_day, ..v.engineers[index_of_identifier(v.engineers, id)] },
        ),
        serving_on(after, day, today) matches Ok(e) && e.identifier == id,
{
    let p = index_of_identifier(v.engineers, id);
    let w = choose|w: int| 0 <= w < v.engineers.len() && v.engineers[w].identifier == id;
    lemma_first_with_identifier(v.engineers, id, w);
    assert(after.engineers[p].last_served == service_day);
    let j = choose|j: int|
        0 <= j < after.engineers.len() && after.engineers[j].last_served == service_day;
    if j != p {
        assert(v.engineers[j].last_served == service_day);
    }
}

/// A date that is not after today gets no answer from a department with
/// engineers, unless the date is reserved.
pub proof fn lemma_non_future_query_is_invalid(v: DepartmentView, day: int, today: int)
    requires
        day <= today,
        v.rota_length > 0,
        !v.reservations.contains_key(day),
    ensures
        serving_on(v, day, today) == Err::<EngineerView, DomainErrorKind>(
            DomainErrorKind::InvalidQuery,
        ),
{
}

/// Recording services one after another never leaves two engineers with
/// the same last-served day.
pub proof fn lemma_services_keep_last_served_distinct(
    v: DepartmentView,
    records: Seq<(u128, int)>,
    after: DepartmentView,
)
    requires
        distinct_last_served(v.engineers),
        services_recorded(v, records) == Ok::<DepartmentView, DomainErrorKind>(after),
    ensures
        distinct_last_served(after.engineers),
    decreases records.len(),
{
    if records.len() > 0 {
        let before = services_recorded(v, records.drop_last()).unwrap();
        lemma_services_keep_last_served_distinct(v, records.drop_last(), before);
        lemma_service_keeps_last_served_distinct(before, records.last().0, records.last().1, after);
    }
}

/// Recording one service never leaves two engineers with the same
/// last-served day.
pub proof fn lemma_service_keeps_last_served_distinct(
    v: DepartmentView,
    id: u128,
    day: int,
    after: DepartmentView,
)
    requires
        distinct_last_served(v.engineers),
        service_recorded(v, id, day) == Ok::<DepartmentView, DomainErrorKind>(after),
    ensures
        distinct_last_served(after.engineers),
{
    let p = index_of_identifier(v.engineers, id);
    let w = choose|w: int| 0 <= w < v.engineers.len() && v.engineers[w].identifier == id;
    lemma_first_with_identifier(v.engineers, id, w);
    assert forall|i: int, j: int|
        0 <= i < after.engineers.len() && 0 <= j < after.engineers.len() && i != j implies after.engineers[i].last_served
        != after.engineers[j].last_served by {
        if i == p {
            assert(v.engineers[j].last_served != day);
        } else if j == p {
            assert(v.engineers[i].last_served != day);
        }
    }
}

/// The team, indexed by the date on which each engineer last served.
#[derive(Debug)]
pub struct EngineeringDepartment {
    engineer_serving_support_today: Option<Engineer>,
    engineers: Vec<Engineer>,
    /// Day number of each last service, to the engineer's position in `engineers`.
    engineers_by_last_date_served: HashMap<i32, usize>,
    reservations_for_month: HashMap<i32, Engineer>,
    rota: Rota,
}

impl View for EngineeringDepartment {
    type V = DepartmentView;

    closed spec fn view(&self) -> DepartmentView {
        DepartmentView {
            engineers: engineer_views(self.engineers@),
            reservations: reservation_view(self.reservations_for_month@),
            rota_length: self.rota@,
        }
    }
}

/// `index` maps the last-served day of each engineer to that engineer's
/// position, and holds no other day.
spec fn indexes(index: Map<i32, usize>, engineers: Seq<Engineer>) -> bool {
    &&& forall|i: int|
        #![trigger engineers[i]]
        0 <= i < engineers.len() ==> {
            let d = engineers[i]@.last_served;
            &&& MIN_DAY <= d <= MAX_DAY
            &&& index.contains_key(d as i32)
            &&& index[d as i32] == i
        }
    &&& forall|d: i32|
        #[trigger] index.contains_key(d) ==> {
            &&& index[d] < engineers.len()
            &&& engineers[index[d] as int]@.last_served == d
        }
}

proof fn lemma_indexes_distinct(index: Map<i32, usize>, engineers: Seq<Engineer>)
    requires
        indexes(index, engineers),
    ensures
        distinct_last_served(engineer_views(engineers)),
{
    let views = engineer_views(engineers);
    assert forall|i: int, j: int|
        0 <= i < views.len() && 0 <= j < views.len() && i != j implies views[i].last_served
        != views[j].last_served by {
        let _ = engineers[i];
        let _ = engineers[j];
    }
}

proof fn lemma_index_lookup(index: Map<i32, usize>, engineers: Seq<Engineer>, day: i32)
    requires
        indexes(index, engineers),
    ensures
        index.contains_key(day) ==> last_served_on(engineer_views(engineers), day as int) == Some(
            engineers[index[day] as int]@,
        ),
        !index.contains_key(day) ==> last_served_on(engineer_views(engineers), day as int) is None,
{
    let views = engineer_views(engineers);
    if index.contains_key(day) {
        let i = index[day] as int;
        assert(views[i].last_served == day);
        let j = choose|j: int| 0 <= j < views.len() && views[j].last_served == day;
        let _ = engineers[j];
        assert(j == i);
    } else {
        assert forall|j: int| 0 <= j < views.len() implies views[j].last_served != day by {
            let _ = engineers[j];
        }
    }
}

/// After engineer `p` last served on `day` instead, the index moves its entry.
proof fn lemma_index_moved(
    index: Map<i32, usize>,
    engineers: Seq<Engineer>,
    moved: Seq<Engineer>,
    p: int,
    day: i32,
)
    requires
        indexes(index, engineers),
        0 <= p < engineers.len(),
        moved.len() == engineers.len(),
        forall|i: int| 0 <= i < moved.len() && i != p ==> #[trigger] moved[i]@ == engineers[i]@,
        moved[p]@.last_served == day,
        MIN_DAY <= day <= MAX_DAY,
        index.contains_key(day) ==> index[day] == p,
    ensures
        indexes(index.remove(engineers[p]@.last_served as i32).insert(day, p as usize), moved),
{
    let old_day = engineers[p]@.last_served as i32;
    let new_index = index.remove(old_day).insert(day, p as usize);
    assert forall|i: int|
        #![trigger moved[i]]
        0 <= i < moved.len() implies {
        let d = moved[i]@.last_served;
        &&& MIN_DAY <= d <= MAX_DAY
        &&& new_index.contains_key(d as i32)
        &&& new_index[d as i32] == i
    } by {
        if i != p {
            let _ = engineers[i];
            assert(moved[i]@ == engineers[i]@);
        }
    }
    assert forall|d: i32| #[trigger] new_index.contains_key(d) implies {
        &&& new_index[d] < moved.len()
        &&& moved[new_index[d] as int]@.last_served == d
    } by {
        if d != day {
            let m = index[d] as int;
            assert(index.contains_key(d));
            let _ = engineers[m];
            let _ = engineers[p];
            assert(m != p);
            assert(moved[m]@ == engineers[m]@);
        }
    }
}

impl EngineeringDepartment {
    #[verifier::type_invariant]
    spec fn well_formed(self) -> bool {
        &&& indexes(self.engineers_by_last_date_served@, self.engineers@)
        &&& self.rota@ == rotation_length(self.engineers@.len() as int)
    }

    /// The department of `engineers`, with dates reserved for some of them.
    /// Fails when two engineers last served on the same date.
    pub fn new(
        engineers: Vec<Engineer>,
        engineer_serving_support_today: Option<Engineer>,
        reservations_for_month: Vec<(AppDate, Engineer)>,
    ) -> (r: Result<Self, DomainError>)
        requires
            rotation_length(engineers@.len() as int) <= i64::MAX,
        ensures
            match r {
                Ok(d) => {
                    &&& distinct_last_served(engineer_views(engineers@))
                    &&& d@ == DepartmentView {
                        engineers: engineer_views(engineers@),
                        reservations: reservation_map(reservation_entries(reservations_for_month@)),
                        rota_length: rotation_length(engineers@.len() as int),
                    }
                },
                Err(e) => !distinct_last_served(engineer_views(engineers@)) && e.kind
                    == DomainErrorKind::DuplicateLastServedDate,
            },
    {
        let index = match Self::engineers_by_last_date_served(&engineers) {
            Some(index) => index,
            None => return Err(DomainError::duplicate_last_served_date()),
        };
        let reservations = Self::reservations_by_date(&reservations_for_month);
        let rota = Self::rota(&engineers);
        let department = Self {
            engineer_serving_support_today,
            engineers,
            engineers_by_last_date_served: index,
            reservations_for_month: reservations,
            rota,
        };
        proof {
            lemma_indexes_distinct(department.engineers_by_last_date_served@, department.engineers@);
        }
        Ok(department)
    }

    /// The index of `engineers` by last-served date; `None` where two share one.
    fn engineers_by_last_date_served(engineers: &Vec<Engineer>) -> (r: Option<HashMap<i32, usize>>)
        ensures
            match r {
                Some(index) => indexes(index@, engineers@),
                None => !distinct_last_served(engineer_views(engineers@)),
            },
    {
        let mut index: HashMap<i32, usize> = HashMap::new();
        let mut i: usize = 0;
        while i < engineers.len()
            invariant
                i <= engineers@.len(),
                indexes(index@, engineers@.take(i as int)),
            decreases engineers@.len() - i,
        {
            let day = engineers[i].last_time_served().days_from_ce();
            if index.contains_key(&day) {
                proof {
                    let j = index@[day] as int;
                    let prefix = engineers@.take(i as int);
                    let _ = prefix[j];
                    let views = engineer_views(engineers@);
                    assert(views[j].last_served == views[i as int].last_served);
                }
                return None;
            }
            let ghost old_index = index@;
            index.insert(day, i);
            proof {
                let prefix = engineers@.take(i as int);
                let next = engineers@.take(i + 1);
                assert forall|k: int| 0 <= k < next.len() implies {
                    let d = #[trigger] next[k]@.last_served;
                    &&& MIN_DAY <= d <= MAX_DAY
                    &&& index@.contains_key(d as i32)
                    &&& index@[d as i32] == k
                } by {
                    if k < i {
                        let _ = prefix[k];
                    }
                }
                assert forall|d: i32| #[trigger] index@.contains_key(d) implies {
                    &&& index@[d] < next.len()
                    &&& next[index@[d] as int]@.last_served == d
                } by {
                    if d != day {
                        let _ = prefix[old_index[d] as int];
                    }
                }
            }
            i = i + 1;
        }
        proof {
            assert(engineers@.take(i as int) =~= engineers@);
        }
        Some(index)
    }

    /// The reserved dates, keyed by day number; a later entry for a date wins.
    fn reservations_by_date(entries: &Vec<(AppDate, Engineer)>) -> (r: HashMap<i32, Engineer>)
        ensures
            reservation_view(r@) == reservation_map(reservation_entries(entries@)),
    {
        let mut reservations: HashMap<i32, Engineer> = HashMap::new();
        let mut i: usize = 0;
        while i < entries.len()
            invariant
                i <= entries@.len(),
                reservation_view(reservations@) == reservation_map(
                    reservation_entries(entries@.take(i as int)),
                ),
            decreases entries@.len() - i,
        {
            let day = entries[i].0.days_from_ce();
            let engineer = entries[i].1.duplicate();
            let ghost before = reservations@;
            reservations.insert(day, engineer);
            proof {
                let next = reservation_entries(entries@.take(i + 1));
                assert(next.drop_last() =~= reservation_entries(entries@.take(i as int)));
                assert(reservation_view(reservations@) =~= reservation_view(before).insert(
                    day as int,
                    engineer@,
                ));
            }
            i = i + 1;
        }
        proof {
            assert(entries@.take(i as int) =~= entries@);
        }
        reservations
    }

    /// Who is on duty on `date`, as seen from `today`.
    pub fn engineer_serving_on_date(&self, date: AppDate, today: AppDate) -> (r: Result<
        Engineer,
        DomainError,
    >)
        ensures
            match r {
                Ok(e) => serving_on(self@, date@, today@) == Ok::<EngineerView, DomainErrorKind>(e@),
                Err(err) => serving_on(self@, date@, today@) == Err::<EngineerView, DomainErrorKind>(
                    err.kind,
                ),
            },
    {
        let day = date.days_from_ce();
        match self.reservations_for_month.get(&day) {
            Some(engineer) => {
                proof {
                    assert(reservation_view(self.reservations_for_month@).contains_key(date@));
                }
                Ok(engineer.duplicate())
            },
            None => {
                proof {
                    assert(!reservation_view(self.reservations_for_month@).contains_key(date@));
                }
                self.compute_engineer_serving_on_date(date, today)
            },
        }
    }

    fn compute_engineer_serving_on_date(&self, date: AppDate, today: AppDate) -> (r: Result<
        Engineer,
        DomainError,
    >)
        ensures
            ({
                let length = self@.rota_length;
                match r {
                    Ok(e) => resolution_error(date@, today@, length) is None && last_served_on(
                        self@.engineers,
                        reference_day(date@, today@, length),
                    ) == Some(e@),
                    Err(err) => match resolution_error(date@, today@, length) {
                        Some(kind) => err.kind == kind,
                        None => last_served_on(
                            self@.engineers,
                            reference_day(date@, today@, length),
                        ) is None && err.kind == DomainErrorKind::NoEngineerFound,
                    },
                }
            }),
    {
        proof {
            use_type_invariant(self);
        }
        let reference = match date.last_date_served_by_engineer(&self.rota, &today) {
            Ok(reference) => reference,
            Err(e) => return Err(e),
        };
        let day = reference.days_from_ce();
        proof {
            lemma_index_lookup(self.engineers_by_last_date_served@, self.engineers@, day);
        }
        match self.engineers_by_last_date_served.get(&day) {
            Some(i) => Ok(self.engineers[*i].duplicate()),
            None => Err(DomainError::no_engineer_found()),
        }
    }

    /// The first position of an engineer with identity `id`.
    fn position_of(&self, id: u128) -> (r: Option<usize>)
        ensures
            match r {
                Some(p) => is_first_with_identifier(self@.engineers, id, p as int),
                None => !has_identifier(self@.engineers, id),
            },
    {
        let mut i: usize = 0;
        while i < self.engineers.len()
            invariant
                i <= self.engineers@.len(),
                forall|j: int| 0 <= j < i ==> (#[trigger] self@.engineers[j]).identifier != id,
            decreases self.engineers@.len() - i,
        {
            if self.engineers[i].identifier().value == id {
                return Some(i);
            }
            i = i + 1;
        }
        None
    }

    /// A copy of the engineers in which the one at `p` last served on `date`.
    fn engineers_with_service(&self, p: usize, date: AppDate) -> (r: Vec<Engineer>)
        requires
            p < self@.engineers.len(),
        ensures
            r@.len() == self.engineers@.len(),
            forall|i: int|
                0 <= i < r@.len() && i != p ==> #[trigger] r@[i]@ == self.engineers@[i]@,
            r@[p as int]@ == (EngineerView { last_served: date@, ..self.engineers@[p as int]@ }),
    {
        let mut engineers: Vec<Engineer> = Vec::new();
        let mut i: usize = 0;
        while i < self.engineers.len()
            invariant
                i <= self.engineers@.len(),
                p < self.engineers@.len(),
                engineers@.len() == i,
                forall|k: int|
                    0 <= k < i && k != p ==> #[trigger] engineers@[k]@ == self.engineers@[k]@,
                p < i ==> engineers@[p as int]@ == (EngineerView {
                    last_served: date@,
                    ..self.engineers@[p as int]@
                }),
            decreases self.engineers@.len() - i,
        {
            if i == p {
                engineers.push(self.engineers[i].served_on(date));
            } else {
                engineers.push(self.engineers[i].duplicate());
            }
            i = i + 1;
        }
        engineers
    }

    /// The department after `engineer` served on `service_date`. This
    /// department is left as it is.
    pub fn mark_support_service_for_engineer(&self, engineer: &Engineer, service_date: AppDate) -> (r:
        Result<EngineeringDepartment, DomainError>)
        ensures
            r matches Ok(d) ==> distinct_last_served(d@.engineers),
            match r {
                Ok(d) => service_recorded(self@, engineer@.identifier, service_date@) == Ok::<
                    DepartmentView,
                    DomainErrorKind,
                >(d@),
                Err(e) => service_recorded(self@, engineer@.identifier, service_date@) == Err::<
                    DepartmentView,
                    DomainErrorKind,
                >(e.kind),
            },
    {
        proof {
            use_type_invariant(self);
        }
        if !service_date.is_business_day() {
            return Err(DomainError::not_a_business_day());
        }
        let id = engineer.identifier().value;
        let p = match self.position_of(id) {
            Some(p) => p,
            None => return Err(DomainError::no_engineer_found()),
        };
        let ghost views = self@.engineers;
        proof {
            let q = index_of_identifier(views, id);
            assert(is_first_with_identifier(views, id, q));
            if q < p {
                assert(views[q].identifier != id);
            }
            if p < q {
                assert(views[p as int].identifier != id);
            }
            assert(q == p);
        }
        let day = service_date.days_from_ce();
        match self.engineers_by_last_date_served.get(&day) {
            Some(j) => {
                if *j != p {
                    proof {
                        let _ = self.engineers@[*j as int];
                        assert(views[*j as int].last_served == day);
                    }
                    return Err(DomainError::duplicate_last_served_date());
                }
            },
            None => {},
        }
        proof {
            assert forall|j: int| 0 <= j < views.len() && j != p implies views[j].last_served
                != day by {
                let _ = self.engineers@[j];
            }
        }
        let engineers = self.engineers_with_service(p, service_date);
        let old_day = self.engineers[p].last_time_served().days_from_ce();
        let mut index = self.engineers_by_last_date_served.clone();
        index.remove(&old_day);
        index.insert(day, p);
        proof {
            lemma_index_moved(
                self.engineers_by_last_date_served@,
                self.engineers@,
                engineers@,
                p as int,
                day,
            );
            assert(index@ == self.engineers_by_last_date_served@.remove(old_day).insert(day, p));
        }
        let department = Self {
            engineer_serving_support_today: self.engineer_serving_support_today.clone(),
            engineers,
            engineers_by_last_date_served: index,
            reservations_for_month: self.reservations_for_month.clone(),
            rota: Rota::new(self.rota.length_in_days()),
        };
        proof {
            assert(department@.engineers =~= views.update(
                p as int,
                EngineerView { last_served: day as int, ..views[p as int] },
            ));
        }
        Ok(department)
    }

    /// The engineers, in the order the department was built with.
    pub fn engineers(&self) -> (r: &Vec<Engineer>)
        ensures
            engineer_views(r@) == self@.engineers,
    {
        &self.engineers
    }

    fn rota(engineers: &Vec<Engineer>) -> (r: Rota)
        requires
            rotation_length(engineers@.len() as int) <= i64::MAX,
        ensures
            r@ == rotation_length(engineers@.len() as int),
    {
        Rota::from_engineer_count(engineers.len())
    }
}

} // verus!
