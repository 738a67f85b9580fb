use vizia_core::binding::BindingSet;
use vizia_core::context::Context;
use vizia_core::datepicker::Date;
use vizia_core::datepicker::DayCellLens;
use vizia_core::datepicker::Datepicker;
use vizia_core::datepicker::DatepickerEvent;
use vizia_core::datepicker::days_in_month;
use vizia_core::datepicker::is_leap_year;
use vizia_core::pipeline::Animation;
use vizia_core::pipeline::Pipeline;
use vizia_core::pipeline::resolve_size;
use vizia_core::pipeline::stack_vertical;
use vizia_core::events::BoundingBox;
use vizia_core::style::Color;
use vizia_core::style::Units;

#[test]
fn leap_year_rule_is_gregorian() {
    assert!(is_leap_year(2020));
    assert!(!is_leap_year(2023));
    assert!(!is_leap_year(1900));
    assert!(is_leap_year(2000));
    assert_eq!(days_in_month(2020, 2), 29);
    assert_eq!(days_in_month(2023, 2), 28);
    assert_eq!(days_in_month(2023, 4), 30);
    assert_eq!(days_in_month(2023, 12), 31);
}

#[test]
fn first_and_last_day_of_month_match_the_calendar() {
    // 2023-03-01 was a Wednesday: two days from Monday.
    assert_eq!(Datepicker::first_day_of_month(2023, 3), 2);
    // 2024-01-01 was a Monday.
    assert_eq!(Datepicker::first_day_of_month(2024, 1), 0);
    assert_eq!(Datepicker::last_day_of_month(2023, 2), 28);
    assert_eq!(Datepicker::last_day_of_month(2024, 2), 29);
}

#[test]
fn view_month_info_wraps_across_year_boundaries() {
    let jan = Date::new(2023, 1, 15).unwrap();
    // One month back from January 2023 is December 2022, which has 31 days
    // and began on a Thursday.
    let (first, days) = Datepicker::view_month_info(&jan, -1);
    assert_eq!(days, 31);
    assert_eq!(first, 3);
    let (_, this_days) = Datepicker::view_month_info(&jan, 0);
    assert_eq!(this_days, 31);
}

#[test]
fn day_grid_shows_trailing_previous_month() {
    // March 2023 starts on Wednesday (index 2), February 2023 has 28 days:
    // the first grid row shows Feb 27, Feb 28, then Mar 1...
    let date = Date::new(2023, 3, 15).unwrap();
    assert_eq!(Datepicker::get_day_number(0, 0, &date), (27, true));
    assert_eq!(Datepicker::get_day_number(0, 1, &date), (28, true));
    assert_eq!(Datepicker::get_day_number(0, 2, &date), (1, false));
    assert_eq!(Datepicker::get_day_number(0, 6, &date), (5, false));
    // Row 4 column 3 is March 30; row 5 runs into April.
    assert_eq!(Datepicker::get_day_number(4, 2, &date), (29, false));
    assert_eq!(Datepicker::get_day_number(5, 2, &date), (5, true));
}

#[test]
fn month_step_clamps_the_day_to_the_new_month() {
    let mut picker = Datepicker::new(Date::new(2023, 1, 31).unwrap());
    let selected = picker.event(&DatepickerEvent::IncrementMonth);
    assert!(selected.is_none());
    // January 31st steps to February 28th, not to an invalid date.
    let d = picker.view_date();
    assert_eq!((d.year, d.month, d.day), (2023, 2, 28));
    picker.event(&DatepickerEvent::DecrementMonth);
    let d = picker.view_date();
    assert_eq!((d.year, d.month, d.day), (2023, 1, 28));
}

#[test]
fn month_step_wraps_the_year() {
    let mut picker = Datepicker::new(Date::new(2022, 12, 5).unwrap());
    picker.event(&DatepickerEvent::IncrementMonth);
    let d = picker.view_date();
    assert_eq!((d.year, d.month, d.day), (2023, 1, 5));
    picker.event(&DatepickerEvent::DecrementMonth);
    let d = picker.view_date();
    assert_eq!((d.year, d.month, d.day), (2022, 12, 5));
}

#[test]
fn year_step_moves_365_days() {
    let mut picker = Datepicker::new(Date::new(2020, 3, 1).unwrap());
    picker.event(&DatepickerEvent::IncrementYear);
    let d = picker.view_date();
    // 365 days after 2020-03-01 is 2021-03-01.
    assert_eq!((d.year, d.month, d.day), (2021, 3, 1));
    picker.event(&DatepickerEvent::DecrementYear);
    let d = picker.view_date();
    assert_eq!((d.year, d.month, d.day), (2020, 3, 1));
}

#[test]
fn select_date_hands_the_date_back() {
    let mut picker = Datepicker::new(Date::new(2023, 6, 1).unwrap());
    let chosen = Date::new(2023, 6, 21).unwrap();
    let selected = picker.event(&DatepickerEvent::SelectDate(chosen));
    assert_eq!(selected, Some(chosen));
}

#[test]
fn invalid_dates_are_rejected() {
    assert!(Date::new(2023, 2, 29).is_none());
    assert!(Date::new(2023, 13, 1).is_none());
    assert!(Date::new(2023, 0, 1).is_none());
    assert!(Date::new(2024, 2, 29).is_some());
}

#[test]
fn sizes_resolve_exactly_and_clamp_at_zero() {
    assert_eq!(resolve_size(Units::Pixels(40), 100, 100), 40);
    assert_eq!(resolve_size(Units::Pixels(-5), 100, 100), 0);
    assert_eq!(resolve_size(Units::Percentage(50), 200, 0), 100);
    assert_eq!(resolve_size(Units::Auto, 200, 70), 70);
    assert_eq!(resolve_size(Units::Stretch(1), 200, 70), 70);
}

#[test]
fn vertical_stacking_accumulates_heights() {
    let parent = BoundingBox { x: 5, y: 10, w: 100, h: 300 };
    let sizes = vec![(100, 30), (100, 50), (100, -7)];
    let boxes = stack_vertical(parent, &sizes);
    assert_eq!(boxes.len(), 3);
    assert_eq!(boxes[0], BoundingBox { x: 5, y: 10, w: 100, h: 30 });
    assert_eq!(boxes[1], BoundingBox { x: 5, y: 40, w: 100, h: 50 });
    // A negative computed size clamps to zero instead of failing.
    assert_eq!(boxes[2], BoundingBox { x: 5, y: 90, w: 100, h: 0 });
}

#[test]
fn animation_interpolates_and_saturates() {
    let mut a = Animation { entity: 1, from_value: 0, to_value: 100, elapsed: 0, duration: 10 };
    assert_eq!(a.sample(), 0);
    a.tick(5);
    assert_eq!(a.sample(), 50);
    a.tick(100);
    assert_eq!(a.sample(), 100);
    assert!(a.is_done());
}

#[test]
fn build_creates_the_picker_subtree() {
    let (mut cx, root) = Context::new();
    let picker = Datepicker::build(&mut cx, root).unwrap();
    let sections = cx.tree.children_of(picker.index());
    assert_eq!(sections.len(), 3);
    let calendar = sections[2];
    assert_eq!(cx.tree.children_of(calendar).len(), 42);
    assert_eq!(
        cx.classes.get(calendar),
        Some(&vec!["datepicker-calendar".to_string()])
    );
    let first_cell = cx.tree.children_of(calendar)[0];
    assert_eq!(
        cx.classes.get(first_cell),
        Some(&vec!["datepicker-calendar-day".to_string()])
    );
    // The calendar carries the fixed grid extent inline.
    assert_eq!(cx.width.get(calendar, &cx.classes), Some(Units::Pixels(224)));
    assert_eq!(cx.height.get(calendar, &cx.classes), Some(Units::Pixels(192)));
    assert_eq!(cx.classes.get(sections[0]), Some(&vec!["datepicker-header".to_string()]));
    assert_eq!(cx.classes.get(sections[1]), Some(&vec!["datepicker-divisor".to_string()]));
    // Destroying the picker tears the whole subtree down.
    cx.destroy(picker);
    assert!(!cx.tree.contains(calendar));
    assert!(cx.classes.get(first_cell).is_none());
}

#[test]
fn day_cell_checked_needs_enabled_cell_and_full_date_match() {
    // March 2023: cell (1, 0) shows March 6th, enabled.
    let view = Date::new(2023, 3, 15).unwrap();
    assert_eq!(Datepicker::get_day_number(1, 0, &view), (6, false));
    let selected = Date::new(2023, 3, 6).unwrap();
    assert!(Datepicker::day_cell_checked(1, 0, &view, &selected));
    // Same day number in another month or year does not check the cell.
    let other_month = Date::new(2023, 4, 6).unwrap();
    assert!(!Datepicker::day_cell_checked(1, 0, &view, &other_month));
    let other_year = Date::new(2022, 3, 6).unwrap();
    assert!(!Datepicker::day_cell_checked(1, 0, &view, &other_year));
    // A disabled cell (previous month) is never checked: (0,0) shows Feb 27.
    let feb = Date::new(2023, 2, 27).unwrap();
    assert!(!Datepicker::day_cell_checked(0, 0, &view, &feb));
}

#[test]
fn day_cell_bindings_fire_only_for_changed_cells() {
    let (mut cx, root) = Context::new();
    let picker = Datepicker::build(&mut cx, root).unwrap();
    let calendar = cx.tree.children_of(picker.index())[2];
    let cells = cx.tree.children_of(calendar);
    let march = Date::new(2023, 3, 15).unwrap();
    let mut bindings: BindingSet<DayCellLens> = BindingSet::new();
    Datepicker::bind_day_cells(&mut bindings, &cells, &march);
    // The viewed date moves within the same month: no cell changes.
    let later_march = Date::new(2023, 3, 20).unwrap();
    assert!(bindings.run_pass(&later_march).is_empty());
    // The viewed month changes: the grid relabels, many cells rebuild.
    let april = Date::new(2023, 4, 20).unwrap();
    let fired = bindings.run_pass(&april);
    assert!(!fired.is_empty());
    // Only registered cell entities fire, each at most once.
    for e in &fired {
        assert!(cells.contains(e));
    }
    // April and March 2023 grids agree on no cell, as it happens: both the
    // day numbers and the disabled flags shift.
    let again = bindings.run_pass(&april);
    assert!(again.is_empty());
}

#[test]
fn tick_runs_the_passes_in_order() {
    let (mut cx, root) = Context::new();
    let child = cx.create(root).unwrap();
    let red = Color { r: 255, g: 0, b: 0, a: 255 };
    cx.background_color.set_inline(root.index(), red);
    cx.width.set_inline(child.index(), Units::Percentage(50));
    cx.height.set_inline(child.index(), Units::Pixels(20));
    cx.names.insert(child.index(), "panel".to_string());
    let mut pipeline = Pipeline::new();
    let summaries = pipeline.tick(&cx, 800, 600, 16);
    // Cascade: the child inherits the root's colour.
    assert_eq!(pipeline.resolved_color.get(child.index()), Some(&red));
    // Layout: sizes resolve against the window extent.
    let b = pipeline.boxes.get(child.index()).unwrap();
    assert_eq!((b.w, b.h), (400, 20));
    // Accessibility sync: both nodes are reported, names attached.
    assert_eq!(summaries.len(), 2);
    assert_eq!(summaries[1], (child.index(), "panel".to_string()));
    // Idempotent on unchanged inputs: a second tick resolves the same.
    pipeline.tick(&cx, 800, 600, 16);
    assert_eq!(pipeline.resolved_color.get(child.index()), Some(&red));
}
