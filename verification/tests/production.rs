//! Production by period.
use mine_schedule::production::{
    last_period_before, period_at, DestinationProduction, PeriodProduction, Stretch,
};
use mine_schedule::scalar::Fixed;
use mine_schedule::trucking::calendar::CalendarPeriod;
use mine_schedule::trucking::rules::{DestinationId, LoaderAgentId};

fn n(value: i64) -> Fixed {
    Fixed(value * 1_000_000_000)
}

fn work(agent: u64, start: i64, end: i64, tonnes: i64) -> Stretch<LoaderAgentId, Fixed> {
    Stretch { key: LoaderAgentId(agent), start_h: n(start), end_h: n(end), tonnes: n(tonnes) }
}

#[test]
fn periods_are_open_at_their_end() {
    assert_eq!(period_at(n(0)), CalendarPeriod(0));
    assert_eq!(period_at(n(24)), CalendarPeriod(1));
    assert_eq!(last_period_before(n(24)), CalendarPeriod(0));
    assert_eq!(last_period_before(n(25)), CalendarPeriod(1));
    assert_eq!(last_period_before(n(0)), CalendarPeriod(0));
}

#[test]
fn work_across_periods_is_split_by_duration() {
    let made = PeriodProduction::aggregate(&vec![work(1, 12, 60, 480)], n(72));
    let agent = LoaderAgentId(1);
    assert_eq!(made.tonnes(agent, CalendarPeriod(0)), Some(n(120)));
    assert_eq!(made.tonnes(agent, CalendarPeriod(1)), Some(n(240)));
    assert_eq!(made.tonnes(agent, CalendarPeriod(2)), Some(n(120)));
    assert_eq!(made.tonnes(agent, CalendarPeriod(3)), None);
    assert_eq!(made.tonnes(LoaderAgentId(2), CalendarPeriod(1)), Some(n(0)));
}

#[test]
fn a_split_keeps_the_total() {
    let made = PeriodProduction::aggregate(&vec![work(1, 0, 72, 100)], n(72));
    let total: i64 = (0..3).map(|p| made.tonnes(LoaderAgentId(1), CalendarPeriod(p)).unwrap().0).sum();
    assert_eq!(total, n(100).0);
    let first = made.tonnes(LoaderAgentId(1), CalendarPeriod(0)).unwrap();
    assert_ne!(first, made.tonnes(LoaderAgentId(1), CalendarPeriod(2)).unwrap());
}

#[test]
fn the_periods_of_a_key_make_up_its_work() {
    let all = vec![work(1, 0, 70, 100), work(2, 5, 50, 33), work(1, 13, 47, 7), work(1, 20, 20, 9), work(2, 60, 61, 1)];
    let made = PeriodProduction::aggregate(&all, n(72));
    for (key, expected) in [(1, 116), (2, 34)] {
        let total: i64 = (0..3).map(|p| made.tonnes(LoaderAgentId(key), CalendarPeriod(p)).map_or(0, |t| t.0)).sum();
        assert_eq!(total, n(expected).0);
    }
}

#[test]
fn nothing_is_counted_for_nothing() {
    let made = PeriodProduction::aggregate(
        &vec![work(1, 0, 10, 0), work(1, 3, 3, 7), work(2, 0, 5, 4), work(2, 5, 10, -4)],
        n(10),
    );
    assert_eq!(made.tonnes.entries.len(), 1);
    assert_eq!(made.tonnes(LoaderAgentId(1), CalendarPeriod(0)), Some(n(7)));
    assert_eq!(made.tonnes(LoaderAgentId(2), CalendarPeriod(0)), Some(n(0)));
}

#[test]
fn coverage_is_told() {
    let made = PeriodProduction::aggregate(&vec![], n(30));
    assert_eq!(made.coverage_end_h(), n(30));
    assert_eq!(made.covered_periods(), 2);
    assert!(made.covers(CalendarPeriod(1)));
    assert!(!made.covers(CalendarPeriod(2)));
    assert!(made.is_partial(CalendarPeriod(1)));
    assert!(!made.is_partial(CalendarPeriod(0)));
    let none = PeriodProduction::aggregate(&vec![], n(-3));
    assert_eq!(none.coverage_end_h(), n(0));
    assert_eq!(none.covered_periods(), 0);
    assert!(!none.covers(CalendarPeriod(0)));
    let endless = PeriodProduction::aggregate(&vec![], Fixed(i64::MAX));
    assert_eq!(endless.coverage_end_h(), n(0));
}

#[test]
fn deliveries_accumulate() {
    let to = |destination: u64, start: i64, end: i64, tonnes: i64| Stretch {
        key: DestinationId(destination),
        start_h: n(start),
        end_h: n(end),
        tonnes: n(tonnes),
    };
    let made = DestinationProduction::aggregate(&vec![to(1, 0, 48, 100), to(2, 0, 24, 9), to(1, 48, 60, 30)], n(60));
    let d = DestinationId(1);
    assert_eq!(made.received(d, CalendarPeriod(0)), Some(n(50)));
    assert_eq!(made.received(d, CalendarPeriod(2)), Some(n(30)));
    assert_eq!(made.cumulative(d, CalendarPeriod(1)), Some(n(100)));
    assert_eq!(made.cumulative(d, CalendarPeriod(2)), Some(n(130)));
    assert_eq!(made.cumulative(d, CalendarPeriod(3)), None);
    assert_eq!(made.cumulative(DestinationId(2), CalendarPeriod(2)), Some(n(9)));
    assert_eq!(made.coverage_end_h(), n(60));
    assert_eq!(made.covered_periods(), 3);
    assert!(made.covers(CalendarPeriod(2)) && made.is_partial(CalendarPeriod(2)));
}
