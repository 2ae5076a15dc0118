use textiler_core::theme::breakpoint::{Breakpoint, Breakpoints};

#[test]
fn create_default() {
    let bps = Breakpoints::default();
    assert_eq!(bps.get("xs").unwrap().width(), 0);
    assert_eq!(bps.get("sm").unwrap().width(), 600);
    assert_eq!(bps.get("md").unwrap().width(), 768);
    assert_eq!(bps.get("lg").unwrap().width(), 992);
    assert_eq!(bps.get("xl").unwrap().width(), 1200);
}

fn names(bps: &Breakpoints) -> Vec<(String, u16)> {
    bps.points().iter().map(|b| (b.abbrev().to_string(), b.width())).collect()
}

#[test]
fn breakpoints_stay_in_order_of_width() {
    let mut bps = Breakpoints::new();
    bps.set("wide", 900);
    bps.set("narrow", 100);
    bps.set("middle", 500);
    assert_eq!(
        names(&bps),
        vec![("narrow".to_string(), 100), ("middle".to_string(), 500), ("wide".to_string(), 900)]
    );
    assert!(bps.get("missing").is_none());
}

#[test]
fn setting_a_known_breakpoint_moves_it() {
    let mut bps = Breakpoints::default();
    bps.set("xs", 1000);
    assert_eq!(bps.get("xs").unwrap().width(), 1000);
    assert_eq!(
        names(&bps),
        vec![
            ("sm".to_string(), 600),
            ("md".to_string(), 768),
            ("lg".to_string(), 992),
            ("xs".to_string(), 1000),
            ("xl".to_string(), 1200)
        ]
    );
}

#[test]
fn a_breakpoint_is_lost_where_its_width_is_taken() {
    let mut bps = Breakpoints::default();
    bps.set("other", 600);
    assert!(bps.get("other").is_none());
    assert_eq!(bps.points().len(), 5);
    bps.set("xs", 600);
    assert!(bps.get("xs").is_none());
    assert_eq!(bps.points().len(), 4);
    assert_eq!(bps.get("sm").unwrap().width(), 600);
}

#[test]
fn a_breakpoint_can_be_taken_out_changed_and_put_back() {
    let mut bps = Breakpoints::default();
    let mut taken = bps.get_mut("md").unwrap();
    assert_eq!(bps.points().len(), 4);
    assert_eq!(taken.get().abbrev(), "md");
    *taken.width_mut() = 800;
    taken.release(&mut bps);
    assert_eq!(bps.get("md").unwrap().width(), 800);
    assert!(bps.get_mut("none").is_none());
}

#[test]
fn breakpoints_are_equal_by_width() {
    let mut a = Breakpoint::new("a", 10);
    let b = Breakpoint::new("b", 10);
    assert!(a == b);
    *a.width_mut() = 11;
    assert!(a != b);
    assert_eq!(a.clone().abbrev(), "a");
}

#[test]
fn no_two_breakpoints_have_one_name() {
    let mut bps = Breakpoints::default();
    let mut taken = bps.get_mut("md").unwrap();
    assert!(bps.get("md").is_none());
    bps.set("md", 5);
    assert_eq!(bps.get("md").unwrap().width(), 5);
    *taken.width_mut() = 800;
    taken.release(&mut bps);
    assert_eq!(bps.get("md").unwrap().width(), 800);
    assert_eq!(bps.points().iter().filter(|b| b.abbrev() == "md").count(), 1);
    assert_eq!(bps.points().len(), 5);
    let other = bps.get_mut("sm").unwrap();
    bps.set("sm", 1);
    bps.set("lg", 600);
    other.release(&mut bps);
    assert!(bps.get("sm").is_none());
    assert_eq!(bps.get("lg").unwrap().width(), 600);
    assert_eq!(names(&bps).len(), 4);
}

#[test]
fn breakpoints_come_of_pairs_in_turn() {
    let bps = Breakpoints::from_pairs(&vec![
        ("a".to_string(), 10),
        ("b".to_string(), 5),
        ("a".to_string(), 3),
        ("c".to_string(), 5),
    ]);
    assert_eq!(names(&bps), vec![("a".to_string(), 3), ("b".to_string(), 5)]);
}
