use changer::watcher::{RulesWatcher, Stamp};

#[test]
fn first_observation_only_records() {
    let mut w = RulesWatcher::new();
    assert!(!w.observe(Stamp { secs: 100, nanos: 5 }));
    assert!(!w.observe(Stamp { secs: 100, nanos: 5 }));
}

#[test]
fn changed_time_asks_for_reload() {
    let mut w = RulesWatcher::new();
    assert!(!w.observe(Stamp { secs: 100, nanos: 5 }));
    assert!(w.observe(Stamp { secs: 100, nanos: 6 }));
    assert!(!w.observe(Stamp { secs: 100, nanos: 6 }));
    assert!(w.observe(Stamp { secs: 90, nanos: 6 }));
}
