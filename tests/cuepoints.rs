use subtitles::cuepoints::{Cuepoint, CuepointError, Cuepoints};

fn cue(id: &str, ms: i32, neg: Option<i32>, pos: Option<i32>, once: bool) -> Cuepoint {
    Cuepoint {
        id: id.to_string(),
        ms,
        timestopass: 7,
        negativemargin: neg,
        positivemargin: pos,
        once,
    }
}

fn ids(found: &[&Cuepoint]) -> Vec<String> {
    found.iter().map(|c| c.id.clone()).collect()
}

#[test]
fn window_bounds_inclusive() {
    let mut reg = Cuepoints::new();
    reg.add_cuepoint(cue("a", 1000, Some(100), Some(200), false)).unwrap();
    assert!(reg.get_cuepoints_by_time(899).is_empty());
    assert_eq!(ids(&reg.get_cuepoints_by_time(900)), vec!["a"]);
    assert_eq!(ids(&reg.get_cuepoints_by_time(1000)), vec!["a"]);
    assert_eq!(ids(&reg.get_cuepoints_by_time(1200)), vec!["a"]);
    assert!(reg.get_cuepoints_by_time(1201).is_empty());
}

#[test]
fn window_default_margins() {
    let mut reg = Cuepoints::new();
    reg.add_cuepoint(cue("d", 1000, None, None, false)).unwrap();
    assert!(reg.get_cuepoints_by_time(899).is_empty());
    assert_eq!(ids(&reg.get_cuepoints_by_time(900)), vec!["d"]);
    assert_eq!(ids(&reg.get_cuepoints_by_time(1000)), vec!["d"]);
    assert!(reg.get_cuepoints_by_time(1001).is_empty());
}

#[test]
fn window_keeps_insertion_order() {
    let mut reg = Cuepoints::new();
    reg.add_cuepoint(cue("b", 500, Some(0), Some(600), false)).unwrap();
    reg.add_cuepoint(cue("x", 5000, Some(0), Some(0), false)).unwrap();
    reg.add_cuepoint(cue("a", 600, Some(200), Some(0), false)).unwrap();
    assert_eq!(ids(&reg.get_cuepoints_by_time(550)), vec!["b", "a"]);
    assert_eq!(ids(&reg.get_cuepoints_by_time(550)), vec!["b", "a"]);
}

#[test]
fn add_resets_countdown_and_returns_position() {
    let mut reg = Cuepoints::new();
    assert_eq!(reg.add_cuepoint(cue("a", 10, None, None, false)), Ok(0));
    assert_eq!(reg.add_cuepoint(cue("b", 10, None, None, false)), Ok(1));
    let found = reg.get_cuepoints_by_time(10);
    assert_eq!(found.len(), 2);
    assert!(found.iter().all(|c| c.timestopass == 0));
}

#[test]
fn add_duplicate_id_refused() {
    let mut reg = Cuepoints::new();
    reg.add_cuepoint(cue("a", 10, None, None, false)).unwrap();
    assert_eq!(
        reg.add_cuepoint(cue("a", 99, None, None, true)),
        Err(CuepointError::DuplicateId)
    );
    assert_eq!(reg.len(), 1);
    assert_eq!(reg.get_cuepoints_by_time(10)[0].ms, 10);
}

#[test]
fn evaluate_fires_in_window() {
    let mut reg = Cuepoints::new();
    reg.add_cuepoint(cue("a", 100, Some(0), Some(0), false)).unwrap();
    reg.add_cuepoint(cue("b", 200, Some(0), Some(0), false)).unwrap();
    let fired = reg.check_cuepoints(100);
    assert_eq!(fired.len(), 1);
    assert_eq!(fired[0].id, "a");
    assert_eq!(fired[0].timestopass, 0);
    assert_eq!(reg.len(), 2);
}

#[test]
fn once_cue_removed_after_firing() {
    let mut reg = Cuepoints::new();
    reg.add_cuepoint(cue("keep", 100, Some(50), Some(50), false)).unwrap();
    reg.add_cuepoint(cue("once", 100, Some(50), Some(50), true)).unwrap();
    reg.add_cuepoint(cue("later", 900, Some(0), Some(0), true)).unwrap();
    let fired = reg.check_cuepoints(100);
    assert_eq!(fired.iter().map(|c| c.id.clone()).collect::<Vec<_>>(), vec!["keep", "once"]);
    assert_eq!(reg.len(), 2);
    for ms in [0, 50, 100, 150, 900] {
        assert!(reg.get_cuepoints_by_time(ms).iter().all(|c| c.id != "once"));
    }
    assert_eq!(ids(&reg.get_cuepoints_by_time(900)), vec!["later"]);
    assert!(reg.check_cuepoints(100).iter().all(|c| c.id != "once"));
}

#[test]
fn countdown_decays_by_one_each_evaluation() {
    let mut reg = Cuepoints::new();
    reg.add_cuepoint(cue("idle", 5000, Some(0), Some(0), false)).unwrap();
    reg.add_cuepoint(cue("busy", 100, Some(0), Some(0), true)).unwrap();
    reg.check_cuepoints(100);
    assert_eq!(reg.get_cuepoints_by_time(5000)[0].timestopass, -1);
    reg.check_cuepoints(100);
    assert_eq!(reg.get_cuepoints_by_time(5000)[0].timestopass, -2);
    reg.check_cuepoints(7);
    assert_eq!(reg.get_cuepoints_by_time(5000)[0].timestopass, -3);
}

#[test]
fn remove_by_id() {
    let mut reg = Cuepoints::new();
    reg.add_cuepoint(cue("a", 10, None, None, false)).unwrap();
    reg.add_cuepoint(cue("b", 10, None, None, false)).unwrap();
    reg.add_cuepoint(cue("c", 10, None, None, false)).unwrap();
    reg.remove_cuepoint(&vec!["b".to_string(), "zzz".to_string()]);
    assert_eq!(ids(&reg.get_cuepoints_by_time(10)), vec!["a", "c"]);
    assert!(!reg.contains_id("b"));
    assert_eq!(reg.add_cuepoint(cue("b", 10, None, None, false)), Ok(2));
    assert_eq!(ids(&reg.get_cuepoints_by_time(10)), vec!["a", "c", "b"]);
}
