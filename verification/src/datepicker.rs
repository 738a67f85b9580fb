//! Calendar arithmetic behind a month-grid date picker: which day number and
//! which month each 7-by-6 grid cell shows, and how the viewed date moves.
//!
//! Dates are plain year/month/day triples with an exact validity predicate;
//! leap years and month lengths are computed and proved here. Only what a
//! calendar library is needed for — the weekday of a date and date shifts by
//! a number of days — is delegated to chrono through trusted wrappers.

use vstd::prelude::*;
use crate::binding::Binding;
use crate::binding::BindingSet;
use crate::binding::Lens;
use crate::context::Context;
use crate::entity::Entity;
use crate::style::Units;
use crate::style::single_class;

verus! {

/// A calendar date as plain values: year, month (1..=12), day (1..=last).
#[derive(Clone, Copy, PartialEq, Eq, Structural, Debug)]
pub struct Date {
    pub year: i32,
    pub month: u32,
    pub day: u32,
}

/// The Gregorian leap-year rule.
pub open spec fn is_leap_spec(y: int) -> bool {
    (y % 4 == 0 && y % 100 != 0) || y % 400 == 0
}

/// Number of days in the given month.
pub open spec fn days_in_month_spec(y: int, m: int) -> int {
    if m == 2 {
        if is_leap_spec(y) {
            29
        } else {
            28
        }
    } else if m == 4 || m == 6 || m == 9 || m == 11 {
        30
    } else {
        31
    }
}

/// A well-formed year/month/day triple, within the years this module
/// handles.
pub open spec fn valid_date_parts(y: int, m: int, d: int) -> bool {
    &&& 1 <= m <= 12
    &&& 1 <= d <= days_in_month_spec(y, m)
    &&& -200000 <= y <= 200000
}

impl Date {
    pub open spec fn wf(self) -> bool {
        valid_date_parts(self.year as int, self.month as int, self.day as int)
    }

    pub fn new(year: i32, month: u32, day: u32) -> (r: Option<Date>)
        ensures
            r is Some <==> valid_date_parts(year as int, month as int, day as int),
            r is Some ==> r->Some_0 == (Date { year, month, day }),
    {
        if year >= -200000 && year <= 200000 && month >= 1 && month <= 12 && day >= 1 && day
            <= days_in_month(year, month) {
            Option::Some(Date { year, month, day })
        } else {
            Option::None
        }
    }
}

impl Date {
    /// Whether this triple is a well-formed date.
    pub fn valid(&self) -> (r: bool)
        ensures
            r == self.wf(),
    {
        self.year >= -200000 && self.year <= 200000 && self.month >= 1 && self.month <= 12
            && self.day >= 1 && self.day <= days_in_month(self.year, self.month)
    }
}

/// Whether `y` is a leap year.
pub fn is_leap_year(y: i32) -> (r: bool)
    ensures
        r == is_leap_spec(y as int),
{
    (y % 4 == 0 && y % 100 != 0) || y % 400 == 0
}

/// Number of days in the given month.
pub fn days_in_month(year: i32, month: u32) -> (r: u32)
    ensures
        r == days_in_month_spec(year as int, month as int),
        28 <= r <= 31,
{
    if month == 2 {
        if is_leap_year(year) {
            29
        } else {
            28
        }
    } else if month == 4 || month == 6 || month == 9 || month == 11 {
        30
    } else {
        31
    }
}

/// The weekday of a date, counted as days from Monday (0 = Monday, ...,
/// 6 = Sunday). A function of the date alone.
pub uninterp spec fn weekday_from_monday_of(y: int, m: int, d: int) -> int;

/// Relies on chrono's NaiveDate::from_ymd_opt, Datelike::weekday and
/// Weekday::num_days_from_monday: the weekday of a calendar date, a pure
/// function of the date.
#[verifier::external_body]
fn weekday_lookup(y: i32, m: u32, d: u32) -> (r: u32)
    requires
        1 <= m <= 12,
        1 <= d <= days_in_month_spec(y as int, m as int),
    ensures
        r == weekday_from_monday_of(y as int, m as int, d as int),
        r < 7,
{
    match chrono::NaiveDate::from_ymd_opt(y, m, d) {
        Some(date) => chrono::Datelike::weekday(&date).num_days_from_monday(),
        None => 0,
    }
}

/// The date a number of days after the given one. A function of its
/// arguments alone.
pub uninterp spec fn date_after_days(y: int, m: int, d: int, n: int) -> (int, int, int);

/// Relies on chrono's NaiveDate::checked_add_days (via from_ymd_opt and the
/// Datelike accessors): shifting a date forward by `n` days, a pure function
/// of the date and the count. The result is again a well-formed date, at
/// most `n` days of years later.
#[verifier::external_body]
fn add_days_lookup(y: i32, m: u32, d: u32, n: u32) -> (r: (i32, u32, u32))
    requires
        valid_date_parts(y as int, m as int, d as int),
        n <= 366,
    ensures
        ({
            let (ry, rm, rd) = date_after_days(y as int, m as int, d as int, n as int);
            r.0 == ry && r.1 == rm && r.2 == rd
        }),
        valid_date_parts(r.0 as int, r.1 as int, r.2 as int) || !valid_date_parts(
            (y + 2) as int,
            1,
            1,
        ),
        y <= r.0 <= y + 2,
{
    let shifted = chrono::NaiveDate::from_ymd_opt(y, m, d).and_then(
        |date| date.checked_add_days(chrono::Days::new(n as u64)),
    );
    match shifted {
        Some(d2) => (
            chrono::Datelike::year(&d2),
            chrono::Datelike::month(&d2),
            chrono::Datelike::day(&d2),
        ),
        None => (y, m, d),
    }
}

/// The date a number of days before the given one. A function of its
/// arguments alone.
pub uninterp spec fn date_before_days(y: int, m: int, d: int, n: int) -> (int, int, int);

/// Relies on chrono's NaiveDate::checked_sub_days (via from_ymd_opt and the
/// Datelike accessors): shifting a date back by `n` days, a pure function of
/// the date and the count.
#[verifier::external_body]
fn sub_days_lookup(y: i32, m: u32, d: u32, n: u32) -> (r: (i32, u32, u32))
    requires
        valid_date_parts(y as int, m as int, d as int),
        n <= 366,
    ensures
        ({
            let (ry, rm, rd) = date_before_days(y as int, m as int, d as int, n as int);
            r.0 == ry && r.1 == rm && r.2 == rd
        }),
        valid_date_parts(r.0 as int, r.1 as int, r.2 as int) || !valid_date_parts(
            (y - 2) as int,
            1,
            1,
        ),
        y - 2 <= r.0 <= y,
{
    let shifted = chrono::NaiveDate::from_ymd_opt(y, m, d).and_then(
        |date| date.checked_sub_days(chrono::Days::new(n as u64)),
    );
    match shifted {
        Some(d2) => (
            chrono::Datelike::year(&d2),
            chrono::Datelike::month(&d2),
            chrono::Datelike::day(&d2),
        ),
        None => (y, m, d),
    }
}

/// The month `off` months away from month `m` of year `y`, normalised back
/// into 1..=12 (for offsets within one year).
pub open spec fn adjusted_ym(y: int, m: int, off: int) -> (int, int) {
    let m2 = m + off;
    if m2 < 1 {
        (y - 1, m2 + 12)
    } else if m2 > 12 {
        (y + 1, m2 - 12)
    } else {
        (y, m2)
    }
}

/// The English month name shown in the picker header.
pub open spec fn month_name_spec(m: int) -> Seq<char> {
    if m == 1 {
        "January"@
    } else if m == 2 {
        "February"@
    } else if m == 3 {
        "March"@
    } else if m == 4 {
        "April"@
    } else if m == 5 {
        "May"@
    } else if m == 6 {
        "June"@
    } else if m == 7 {
        "July"@
    } else if m == 8 {
        "August"@
    } else if m == 9 {
        "September"@
    } else if m == 10 {
        "October"@
    } else if m == 11 {
        "November"@
    } else {
        "December"@
    }
}

/// The English name of month `m`.
pub fn month_name(m: u32) -> (r: String)
    requires
        1 <= m <= 12,
    ensures
        r@ == month_name_spec(m as int),
{
    if m == 1 {
        "January".to_string()
    } else if m == 2 {
        "February".to_string()
    } else if m == 3 {
        "March".to_string()
    } else if m == 4 {
        "April".to_string()
    } else if m == 5 {
        "May".to_string()
    } else if m == 6 {
        "June".to_string()
    } else if m == 7 {
        "July".to_string()
    } else if m == 8 {
        "August".to_string()
    } else if m == 9 {
        "September".to_string()
    } else if m == 10 {
        "October".to_string()
    } else if m == 11 {
        "November".to_string()
    } else {
        "December".to_string()
    }
}

/// The day number and disabled flag of one cell of the 7-by-6 calendar
/// grid, given the first weekday of the month (1..=7, Monday-based with
/// Monday-start folded to 7), the previous month's length, and this month's
/// length. A disabled cell shows a day of the previous or next month.
pub open spec fn day_cell_spec(yy: int, xx: int, fdtm: int, days_prev: int, days_this: int) -> (
    int,
    bool,
) {
    if yy == 0 {
        if xx < fdtm {
            (days_prev - (fdtm - xx - 1), true)
        } else {
            (xx - fdtm + 1, false)
        }
    } else {
        let day_number = yy * 7 + xx - fdtm + 1;
        if day_number > days_this {
            (day_number - days_this, true)
        } else {
            (day_number, false)
        }
    }
}

/// The day number and disabled flag of grid cell (row `yy`, column `xx`)
/// for the month `view_date` views.
pub open spec fn grid_cell_spec(view_date: Date, yy: int, xx: int) -> (int, bool) {
    let (py, pm) = adjusted_ym(view_date.year as int, view_date.month as int, -1);
    let fd = weekday_from_monday_of(view_date.year as int, view_date.month as int, 1);
    let fdtm = if fd == 0 {
        7int
    } else {
        fd
    };
    day_cell_spec(
        yy,
        xx,
        fdtm,
        days_in_month_spec(py, pm),
        days_in_month_spec(view_date.year as int, view_date.month as int),
    )
}

/// A lens from the viewed date to one grid cell's day number and disabled
/// flag: what each day label observes and rebuilds from.
#[derive(Clone, Copy)]
pub struct DayCellLens {
    pub y: u32,
    pub x: u32,
}

impl Lens for DayCellLens {
    type Source = Date;

    type Target = (u32, bool);

    open spec fn view_spec(self, s: Date) -> Option<(u32, bool)> {
        if s.wf() && self.y < 6 && self.x < 7 {
            let cell = grid_cell_spec(s, self.y as int, self.x as int);
            Option::Some((cell.0 as u32, cell.1))
        } else {
            Option::None
        }
    }

    fn get(&self, s: &Date) -> (r: Option<(u32, bool)>) {
        if self.y < 6 && self.x < 7 && s.valid() {
            let cell = Datepicker::get_day_number(self.y, self.x, s);
            proof {
                assert(cell.0 == grid_cell_spec(*s, self.y as int, self.x as int).0 as u32);
            }
            Option::Some(cell)
        } else {
            Option::None
        }
    }
}

/// The events the picker reacts to.
pub enum DatepickerEvent {
    IncrementMonth,
    DecrementMonth,
    IncrementYear,
    DecrementYear,
    SelectDate(Date),
}

/// The state of a month-grid date picker: the viewed date and the header's
/// month name.
pub struct Datepicker {
    view_date: Date,
    month_str: String,
}

impl Datepicker {
    pub closed spec fn view_date_spec(self) -> Date {
        self.view_date
    }

    pub closed spec fn month_str_spec(self) -> Seq<char> {
        self.month_str@
    }

    pub open spec fn wf(self) -> bool {
        &&& self.view_date_spec().wf()
        &&& self.month_str_spec() == month_name_spec(self.view_date_spec().month as int)
    }

    /// A picker viewing the given date.
    pub fn new(view_date: Date) -> (r: Datepicker)
        requires
            view_date.wf(),
        ensures
            r.wf(),
            r.view_date_spec() == view_date,
    {
        let month_str = month_name(view_date.month);
        Datepicker { view_date, month_str }
    }

    /// Builds the picker's widget subtree under `parent`: a header for the
    /// month and year controls, a divisor, and a calendar carrying the
    /// original's fixed grid extent inline (7 by 6 cells of 32 pixels, so
    /// 224 by 192) with one classed cell per grid position. Returns the
    /// picker's root entity, or `None` when `parent` is dead or outside the
    /// tree.
    pub fn build(cx: &mut Context, parent: Entity) -> (r: Option<Entity>)
        requires
            old(cx).wf(),
            old(cx).entities.slot_count() + 50 < u32::MAX as nat,
        ensures
            final(cx).wf(),
            r is Some == (old(cx).entities.is_alive_spec(parent) && old(cx).tree.in_tree(
                parent.index_spec() as int,
            )),
            r is Some ==> ({
                let root = r->Some_0;
                let kids = final(cx).tree.children_spec(root.index_spec() as int);
                &&& final(cx).entities.is_alive_spec(root)
                &&& final(cx).tree.in_tree(root.index_spec() as int)
                &&& final(cx).tree.parent_spec(root.index_spec() as int) == Some(
                    parent.index_spec(),
                )
                &&& kids.len() == 3
                &&& single_class(
                    final(cx).classes.get_spec(root.index_spec() as int),
                    "datepicker"@,
                )
                &&& final(cx).tree.in_tree(kids[0] as int)
                &&& single_class(final(cx).classes.get_spec(kids[0] as int), "datepicker-header"@)
                &&& final(cx).tree.in_tree(kids[1] as int)
                &&& single_class(final(cx).classes.get_spec(kids[1] as int), "datepicker-divisor"@)
                &&& final(cx).tree.in_tree(kids[2] as int)
                &&& single_class(final(cx).classes.get_spec(kids[2] as int), "datepicker-calendar"@)
                &&& final(cx).width.inline_spec(kids[2] as int) == Some(Units::Pixels(224))
                &&& final(cx).height.inline_spec(kids[2] as int) == Some(Units::Pixels(192))
                &&& final(cx).tree.children_spec(kids[2] as int).len() == 42
                &&& forall|k: int|
                    0 <= k < 42 ==> ({
                        let day = #[trigger] final(cx).tree.children_spec(kids[2] as int)[k];
                        &&& final(cx).tree.in_tree(day as int)
                        &&& single_class(
                            final(cx).classes.get_spec(day as int),
                            "datepicker-calendar-day"@,
                        )
                    })
            }),
    {
        let root = match cx.create(parent) {
            Option::Some(e) => e,
            Option::None => {
                return Option::None;
            },
        };
        cx.classes.insert(root.index(), vec!["datepicker".to_string()]);
        proof {
            crate::entity::lemma_alive_implies_index_alive(cx.entities, root);
            crate::entity::lemma_store_bounds(cx.entities);
        }
        let header = match cx.create(root) {
            Option::Some(e) => e,
            Option::None => {
                return Option::None;
            },
        };
        cx.classes.insert(header.index(), vec!["datepicker-header".to_string()]);
        proof {
            crate::entity::lemma_alive_implies_index_alive(cx.entities, header);
            crate::entity::lemma_store_bounds(cx.entities);
            assert(header.index_spec() != root.index_spec());
        }
        let ghost s1 = *cx;
        let divisor = match cx.create(root) {
            Option::Some(e) => e,
            Option::None => {
                return Option::None;
            },
        };
        cx.classes.insert(divisor.index(), vec!["datepicker-divisor".to_string()]);
        proof {
            crate::entity::lemma_alive_implies_index_alive(cx.entities, divisor);
            crate::entity::lemma_store_bounds(cx.entities);
            assert(divisor.index_spec() != root.index_spec());
            assert(divisor.index_spec() != header.index_spec());
            assert(s1.tree.node_unchanged(cx.tree, header.index_spec() as int));
            assert(cx.tree.in_tree(header.index_spec() as int));
        }
        let ghost s2 = *cx;
        let calendar = match cx.create(root) {
            Option::Some(e) => e,
            Option::None => {
                return Option::None;
            },
        };
        cx.classes.insert(calendar.index(), vec!["datepicker-calendar".to_string()]);
        cx.width.set_inline(calendar.index(), Units::Pixels(224));
        cx.height.set_inline(calendar.index(), Units::Pixels(192));
        proof {
            crate::entity::lemma_alive_implies_index_alive(cx.entities, calendar);
            crate::entity::lemma_store_bounds(cx.entities);
            assert(calendar.index_spec() != root.index_spec());
            assert(calendar.index_spec() != header.index_spec());
            assert(calendar.index_spec() != divisor.index_spec());
            assert(s2.tree.node_unchanged(cx.tree, header.index_spec() as int));
            assert(s2.tree.node_unchanged(cx.tree, divisor.index_spec() as int));
            assert(cx.tree.in_tree(header.index_spec() as int));
            assert(cx.tree.in_tree(divisor.index_spec() as int));
            assert(cx.tree.children_spec(root.index_spec() as int) =~= seq![
                header.index_spec(),
                divisor.index_spec(),
                calendar.index_spec(),
            ]);
        }
        let mut cell: usize = 0;
        while cell < 42
            invariant
                cx.wf(),
                cx.entities.slot_count() < old(cx).entities.slot_count() + 5 + cell,
                old(cx).entities.slot_count() + 50 < u32::MAX as nat,
                cell <= 42,
                cx.entities.is_alive_spec(calendar),
                cx.tree.in_tree(calendar.index_spec() as int),
                cx.tree.children_spec(calendar.index_spec() as int).len() == cell,
                cx.entities.is_alive_spec(root),
                cx.tree.in_tree(root.index_spec() as int),
                cx.tree.in_tree(header.index_spec() as int),
                cx.tree.in_tree(divisor.index_spec() as int),
                cx.tree.parent_spec(root.index_spec() as int) == Some(parent.index_spec()),
                cx.tree.parent_spec(calendar.index_spec() as int) == Some(root.index_spec()),
                cx.tree.children_spec(root.index_spec() as int) == seq![
                    header.index_spec(),
                    divisor.index_spec(),
                    calendar.index_spec(),
                ],
                root.index_spec() != calendar.index_spec(),
                header.index_spec() != calendar.index_spec(),
                divisor.index_spec() != calendar.index_spec(),
                header.index_spec() != divisor.index_spec(),
                header.index_spec() != root.index_spec(),
                divisor.index_spec() != root.index_spec(),
                single_class(cx.classes.get_spec(root.index_spec() as int), "datepicker"@),
                single_class(cx.classes.get_spec(header.index_spec() as int), "datepicker-header"@),
                single_class(
                    cx.classes.get_spec(divisor.index_spec() as int),
                    "datepicker-divisor"@,
                ),
                single_class(
                    cx.classes.get_spec(calendar.index_spec() as int),
                    "datepicker-calendar"@,
                ),
                cx.width.inline_spec(calendar.index_spec() as int) == Some(Units::Pixels(224)),
                cx.height.inline_spec(calendar.index_spec() as int) == Some(Units::Pixels(192)),
                forall|m: int|
                    0 <= m < cell ==> ({
                        let day = #[trigger] cx.tree.children_spec(
                            calendar.index_spec() as int,
                        )[m];
                        &&& cx.tree.in_tree(day as int)
                        &&& single_class(
                            cx.classes.get_spec(day as int),
                            "datepicker-calendar-day"@,
                        )
                    }),
                old(cx).entities.is_alive_spec(parent),
                old(cx).tree.in_tree(parent.index_spec() as int),
            decreases 42 - cell,
        {
            let ghost head = *cx;
            let day = match cx.create(calendar) {
                Option::Some(e) => e,
                Option::None => {
                    return Option::None;
                },
            };
            cx.classes.insert(day.index(), vec!["datepicker-calendar-day".to_string()]);
            proof {
                crate::entity::lemma_alive_implies_index_alive(cx.entities, day);
                crate::entity::lemma_store_bounds(cx.entities);
                assert(head.entities.is_alive_spec(root));
                assert(!head.entities.index_alive(day.index_spec() as int));
                assert(head.tree.in_tree(header.index_spec() as int));
                assert(head.entities.index_alive(header.index_spec() as int));
                assert(head.tree.in_tree(divisor.index_spec() as int));
                assert(head.entities.index_alive(divisor.index_spec() as int));
                assert(root.index_spec() != day.index_spec());
                assert(header.index_spec() != day.index_spec());
                assert(divisor.index_spec() != day.index_spec());
                assert(head.tree.node_unchanged(cx.tree, root.index_spec() as int));
                assert(head.tree.node_unchanged(cx.tree, header.index_spec() as int));
                assert(head.tree.node_unchanged(cx.tree, divisor.index_spec() as int));
                assert(cx.tree.children_spec(root.index_spec() as int).len() == 3);
                assert forall|m: int| 0 <= m < cell + 1 implies ({
                    let dd = #[trigger] cx.tree.children_spec(calendar.index_spec() as int)[m];
                    &&& cx.tree.in_tree(dd as int)
                    &&& single_class(cx.classes.get_spec(dd as int), "datepicker-calendar-day"@)
                }) by {
                    let dd = cx.tree.children_spec(calendar.index_spec() as int)[m];
                    if m < cell {
                        assert(head.tree.children_spec(calendar.index_spec() as int)[m] == dd);
                        assert(head.tree.in_tree(dd as int));
                        crate::tree::lemma_child_edges(head.tree, calendar.index_spec() as int, m);
                        assert(head.tree.parent_spec(dd as int) == Some(calendar.index_spec()));
                        if dd as int == calendar.index_spec() as int {
                            assert(head.tree.parent_spec(calendar.index_spec() as int) == Some(
                                root.index_spec(),
                            ));
                            assert(false);
                        }
                        assert(head.entities.index_alive(dd as int));
                        assert(dd != day.index_spec());
                        assert(head.tree.node_unchanged(cx.tree, dd as int));
                    } else {
                        assert(dd == day.index_spec());
                        assert(cx.tree.in_tree(dd as int));
                    }
                }
            }
            cell += 1;
        }
        Option::Some(root)
    }

    /// The date the picker currently views.
    pub fn view_date(&self) -> (r: Date)
        ensures
            r == self.view_date_spec(),
    {
        self.view_date
    }

    /// The header's month name for the viewed month.
    pub fn month_str(&self) -> (r: &String)
        ensures
            r@ == self.month_str_spec(),
    {
        &self.month_str
    }

    /// The style element name of this view.
    pub fn element(&self) -> (r: Option<&'static str>)
        ensures
            r is Some && r->Some_0@ == "datepicker"@,
    {
        Option::Some("datepicker")
    }

    /// First weekday (days from Monday) of the given month.
    pub fn first_day_of_month(year: i32, month: u32) -> (r: u32)
        requires
            1 <= month <= 12,
        ensures
            r == weekday_from_monday_of(year as int, month as int, 1),
            r < 7,
    {
        weekday_lookup(year, month, 1)
    }

    /// Number of days in the given month.
    pub fn last_day_of_month(year: i32, month: u32) -> (r: u32)
        requires
            1 <= month <= 12,
        ensures
            r == days_in_month_spec(year as int, month as int),
    {
        days_in_month(year, month)
    }

    /// Given a date and a month offset, returns the first weekday of that
    /// month and the number of days in it.
    pub fn view_month_info(view_date: &Date, month_offset: i32) -> (r: (u32, u32))
        requires
            view_date.wf(),
            -11 <= view_date.month as int + month_offset <= 24,
        ensures
            ({
                let (ay, am) = adjusted_ym(
                    view_date.year as int,
                    view_date.month as int,
                    month_offset as int,
                );
                &&& r.0 == weekday_from_monday_of(ay, am, 1)
                &&& r.0 < 7
                &&& r.1 == days_in_month_spec(ay, am)
            }),
    {
        let mut year = view_date.year;
        let mut month = view_date.month as i32 + month_offset;
        if month < 1 {
            year = year - 1;
            month = month + 12;
        } else if month > 12 {
            year = year + 1;
            month = month - 12;
        }
        let month = month as u32;
        (Self::first_day_of_month(year, month), Self::last_day_of_month(year, month))
    }

    /// The day number shown in grid cell (row `y`, column `x`) for the
    /// viewed month, and whether that cell is disabled because it belongs to
    /// the previous or the next month.
    pub fn get_day_number(y: u32, x: u32, view_date: &Date) -> (r: (u32, bool))
        requires
            view_date.wf(),
            y < 6,
            x < 7,
        ensures
            ({
                let cell = grid_cell_spec(*view_date, y as int, x as int);
                r.0 == cell.0 && r.1 == cell.1
            }),
    {
        let (_, days_prev_month) = Self::view_month_info(view_date, -1);
        let (first_day_this_month, days_this_month) = Self::view_month_info(view_date, 0);
        let mut fdtm_i = first_day_this_month;
        if fdtm_i == 0 {
            fdtm_i = 7;
        }
        if y == 0 {
            if x < fdtm_i {
                (days_prev_month - (fdtm_i - x - 1), true)
            } else {
                (x - fdtm_i + 1, false)
            }
        } else {
            let day_number = y * 7 + x - fdtm_i + 1;
            if day_number > days_this_month {
                (day_number - days_this_month, true)
            } else {
                (day_number, false)
            }
        }
    }

    /// Whether the grid cell at (row `y`, column `x`) is shown checked: the
    /// cell is enabled (belongs to the viewed month) and the selected date's
    /// day equals the shown day number while its month and year equal the
    /// viewed ones.
    pub fn day_cell_checked(y: u32, x: u32, view_date: &Date, selected: &Date) -> (r: bool)
        requires
            view_date.wf(),
            y < 6,
            x < 7,
        ensures
            r == ({
                let cell = grid_cell_spec(*view_date, y as int, x as int);
                &&& !cell.1
                &&& selected.day == cell.0
                &&& selected.month == view_date.month
                &&& selected.year == view_date.year
            }),
    {
        let (day_number, disabled) = Self::get_day_number(y, x, view_date);
        !disabled && selected.day == day_number && selected.month == view_date.month
            && selected.year == view_date.year
    }

    /// Registers one binding per day cell of the built grid: cell `k`
    /// observes row `k / 7`, column `k % 7` of the viewed date, so a change
    /// of the viewed month rebuilds exactly the cells whose day number or
    /// disabled flag actually changed.
    pub fn bind_day_cells(
        bindings: &mut BindingSet<DayCellLens>,
        cells: &Vec<u32>,
        view_date: &Date,
    )
        requires
            cells@.len() == 42,
        ensures
            final(bindings).bindings_spec().len() == old(bindings).bindings_spec().len() + 42,
            forall|m: int|
                0 <= m < old(bindings).bindings_spec().len() ==> final(bindings).bindings_spec()[m]
                    == old(bindings).bindings_spec()[m],
            forall|k: int|
                0 <= k < 42 ==> {
                    let lens = DayCellLens { y: (k / 7) as u32, x: (k % 7) as u32 };
                    #[trigger] final(bindings).bindings_spec()[old(bindings).bindings_spec().len()
                        + k] == (Binding {
                        entity: cells@[k],
                        lens,
                        last: lens.view_spec(*view_date),
                    })
                },
    {
        let ghost base = bindings.bindings_spec().len();
        let mut k: usize = 0;
        while k < 42
            invariant
                cells@.len() == 42,
                k <= 42,
                base == old(bindings).bindings_spec().len(),
                bindings.bindings_spec().len() == base + k,
                forall|m: int|
                    0 <= m < base ==> bindings.bindings_spec()[m] == old(
                        bindings,
                    ).bindings_spec()[m],
                forall|m: int|
                    0 <= m < k ==> {
                        let lens = DayCellLens { y: (m / 7) as u32, x: (m % 7) as u32 };
                        #[trigger] bindings.bindings_spec()[base + m] == (Binding {
                            entity: cells@[m],
                            lens,
                            last: lens.view_spec(*view_date),
                        })
                    },
            decreases 42 - k,
        {
            let lens = DayCellLens { y: (k / 7) as u32, x: (k % 7) as u32 };
            bindings.register(cells[k], lens, view_date);
            k += 1;
        }
    }

    /// Reacts to one picker event: steps the viewed month or year (keeping
    /// the date valid by clamping the day to the new month's length), or
    /// hands back the selected date for the owner to act on. The header's
    /// month name follows the viewed month.
    pub fn event(&mut self, event: &DatepickerEvent) -> (selected: Option<Date>)
        requires
            old(self).wf(),
        ensures
            final(self).wf(),
            match event {
                DatepickerEvent::IncrementMonth => {
                    let (ny, nm) = adjusted_ym(
                        old(self).view_date_spec().year as int,
                        old(self).view_date_spec().month as int,
                        1,
                    );
                    let nd = if old(self).view_date_spec().day as int > days_in_month_spec(
                        ny,
                        nm,
                    ) {
                        days_in_month_spec(ny, nm)
                    } else {
                        old(self).view_date_spec().day as int
                    };
                    &&& (valid_date_parts(ny, nm, nd) ==> final(self).view_date_spec() == (Date {
                        year: ny as i32,
                        month: nm as u32,
                        day: nd as u32,
                    }))
                    &&& (!valid_date_parts(ny, nm, nd) ==> *final(self) == *old(self))
                    &&& selected is None
                },
                DatepickerEvent::DecrementMonth => {
                    let (ny, nm) = adjusted_ym(
                        old(self).view_date_spec().year as int,
                        old(self).view_date_spec().month as int,
                        -1,
                    );
                    let nd = if old(self).view_date_spec().day as int > days_in_month_spec(
                        ny,
                        nm,
                    ) {
                        days_in_month_spec(ny, nm)
                    } else {
                        old(self).view_date_spec().day as int
                    };
                    &&& (valid_date_parts(ny, nm, nd) ==> final(self).view_date_spec() == (Date {
                        year: ny as i32,
                        month: nm as u32,
                        day: nd as u32,
                    }))
                    &&& (!valid_date_parts(ny, nm, nd) ==> *final(self) == *old(self))
                    &&& selected is None
                },
                DatepickerEvent::IncrementYear => {
                    let d = old(self).view_date_spec();
                    let (ry, rm, rd) = date_after_days(
                        d.year as int,
                        d.month as int,
                        d.day as int,
                        365,
                    );
                    &&& (valid_date_parts(ry, rm, rd) ==> final(self).view_date_spec().year == ry
                        && final(self).view_date_spec().month == rm && final(self).view_date_spec().day == rd)
                    &&& selected is None
                },
                DatepickerEvent::DecrementYear => {
                    let d = old(self).view_date_spec();
                    let (ry, rm, rd) = date_before_days(
                        d.year as int,
                        d.month as int,
                        d.day as int,
                        365,
                    );
                    &&& (valid_date_parts(ry, rm, rd) ==> final(self).view_date_spec().year == ry
                        && final(self).view_date_spec().month == rm && final(self).view_date_spec().day == rd)
                    &&& selected is None
                },
                DatepickerEvent::SelectDate(date) => {
                    &&& selected == Some(*date)
                    &&& *final(self) == *old(self)
                },
            },
    {
        match event {
            DatepickerEvent::IncrementMonth => {
                let (ny, nm) = if self.view_date.month == 12 {
                    (self.view_date.year + 1, 1)
                } else {
                    (self.view_date.year, self.view_date.month + 1)
                };
                let last = days_in_month(ny, nm);
                let nd = if self.view_date.day > last {
                    last
                } else {
                    self.view_date.day
                };
                match Date::new(ny, nm, nd) {
                    Option::Some(date) => {
                        self.view_date = date;
                        self.month_str = month_name(nm);
                    },
                    Option::None => {},
                }
                Option::None
            },
            DatepickerEvent::DecrementMonth => {
                let (ny, nm) = if self.view_date.month == 1 {
                    (self.view_date.year - 1, 12)
                } else {
                    (self.view_date.year, self.view_date.month - 1)
                };
                let last = days_in_month(ny, nm);
                let nd = if self.view_date.day > last {
                    last
                } else {
                    self.view_date.day
                };
                match Date::new(ny, nm, nd) {
                    Option::Some(date) => {
                        self.view_date = date;
                        self.month_str = month_name(nm);
                    },
                    Option::None => {},
                }
                Option::None
            },
            DatepickerEvent::IncrementYear => {
                let (ry, rm, rd) = add_days_lookup(
                    self.view_date.year,
                    self.view_date.month,
                    self.view_date.day,
                    365,
                );
                match Date::new(ry, rm, rd) {
                    Option::Some(date) => {
                        self.view_date = date;
                        self.month_str = month_name(date.month);
                    },
                    Option::None => {},
                }
                Option::None
            },
            DatepickerEvent::DecrementYear => {
                let (ry, rm, rd) = sub_days_lookup(
                    self.view_date.year,
                    self.view_date.month,
                    self.view_date.day,
                    365,
                );
                match Date::new(ry, rm, rd) {
                    Option::Some(date) => {
                        self.view_date = date;
                        self.month_str = month_name(date.month);
                    },
                    Option::None => {},
                }
                Option::None
            },
            DatepickerEvent::SelectDate(date) => Option::Some(*date),
        }
    }
}

} // verus!
