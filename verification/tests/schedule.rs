use depwatch::{RefreshAction, RefreshSchedule};

#[test]
fn refresh_comes_first_then_alternates_with_ticks() {
    let mut schedule = RefreshSchedule::new();
    assert_eq!(schedule.advance(), RefreshAction::Refresh);
    assert_eq!(schedule.advance(), RefreshAction::WaitTick);
    assert_eq!(schedule.advance(), RefreshAction::Refresh);
    assert_eq!(schedule.advance(), RefreshAction::WaitTick);
    assert_eq!(schedule.advance(), RefreshAction::Refresh);
}

#[test]
fn each_refresh_follows_exactly_one_wait() {
    let mut schedule = RefreshSchedule::new();
    let mut refreshes: usize = 0;
    let mut waits_since_refresh: usize = 0;
    let mut i: usize = 0;
    while i < 20 {
        match schedule.advance() {
            RefreshAction::Refresh => {
                if refreshes > 0 {
                    assert_eq!(waits_since_refresh, 1);
                }
                refreshes += 1;
                waits_since_refresh = 0;
            }
            RefreshAction::WaitTick => {
                waits_since_refresh += 1;
            }
        }
        i += 1;
    }
    assert_eq!(refreshes, 10);
}
